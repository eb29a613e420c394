use vstd::prelude::*;

use crate::text::{first_index, lemma_first_index};

verus! {

/// What bstr::ByteSlice::trim gives for `b`: the bytes without their leading
/// and trailing Unicode whitespace.
pub uninterp spec fn unicode_trimmed(b: Seq<u8>) -> Seq<u8>;

/// Relies on bstr::ByteSlice::trim to strip Unicode whitespace from both ends
/// of a line.
#[verifier::external_body]
fn trim(line: &[u8]) -> (r: Vec<u8>)
    ensures
        r@ == unicode_trimmed(line@),
{
    bstr::ByteSlice::trim(line).to_vec()
}

/// The lines of `b`, each with its `\n` where it has one. Nothing after a
/// final `\n` makes a line.
#[verifier::opaque]
pub open spec fn lines_of(b: Seq<u8>) -> Seq<Seq<u8>>
    decreases b.len(),
{
    if b.len() == 0 {
        Seq::empty()
    } else {
        match first_index(b, 10u8) {
            Some(i) => if i < b.len() {
                seq![b.take(i + 1 as int)] + lines_of(b.skip(i + 1 as int))
            } else {
                seq![b]
            },
            None => seq![b],
        }
    }
}

/// Whether a trimmed line is an argument: it is not empty and not a comment.
pub open spec fn is_argument(t: Seq<u8>) -> bool {
    t.len() > 0 && t[0] != 35u8
}

/// The arguments that `lines` give, in order: each line trimmed, without
/// the empty ones and those that start with `#`.
#[verifier::opaque]
pub open spec fn arguments(lines: Seq<Seq<u8>>) -> Seq<Seq<u8>>
    decreases lines.len(),
{
    if lines.len() == 0 {
        Seq::empty()
    } else {
        let t = unicode_trimmed(lines[0]);
        (if is_argument(t) { seq![t] } else { Seq::empty() }) + arguments(lines.drop_first())
    }
}

/// The byte strings held in a list of byte vectors.
pub open spec fn byte_strings(v: Seq<Vec<u8>>) -> Seq<Seq<u8>> {
    v.map_values(|x: Vec<u8>| x@)
}

/// The first line of `b` ends at its first `\n`, or with `b`.
proof fn lemma_first_line(b: Seq<u8>, stop: nat)
    requires
        0 < stop <= b.len(),
        forall|k: int| 0 <= k < stop - 1 ==> b[k] != 10u8,
        stop < b.len() ==> b[stop - 1] == 10u8,
    ensures
        lines_of(b) == seq![b.take(stop as int)] + lines_of(b.skip(stop as int)),
{
    reveal(lines_of);
    if b[stop - 1] == 10u8 {
        lemma_first_index(b, 10u8, Some((stop - 1) as nat));
    } else {
        lemma_first_index(b, 10u8, None);
        assert(b.take(stop as int) =~= b);
        assert(b.skip(stop as int) =~= Seq::<u8>::empty());
    }
    assert(seq![b.take(stop as int)] + lines_of(b.skip(stop as int)) =~= lines_of(b)) by {
        if b[stop - 1] != 10u8 {
            assert(lines_of(b.skip(stop as int)) =~= Seq::<Seq<u8>>::empty());
        }
    }
}

/// The arguments of a line followed by more lines.
proof fn lemma_arguments_cons(line: Seq<u8>, rest: Seq<Seq<u8>>)
    ensures
        arguments(seq![line] + rest) == (if is_argument(unicode_trimmed(line)) {
            seq![unicode_trimmed(line)]
        } else {
            Seq::empty()
        }) + arguments(rest),
{
    reveal(arguments);
    let l = seq![line] + rest;
    assert(l[0] == line);
    assert(l.drop_first() =~= rest);
}

/// Reads a configuration file's contents into shell arguments, one for each
/// line that is neither blank nor a comment, trimmed of whitespace. Lines are
/// kept as raw bytes, so none is refused: the second list, of lines that
/// could not be read, is always empty.
pub fn parse_reader(bytes: &[u8]) -> (r: (Vec<Vec<u8>>, Vec<String>))
    ensures
        byte_strings(r.0@) == arguments(lines_of(bytes@)),
        r.1@.len() == 0,
{
    let len = bytes.len();
    let mut args: Vec<Vec<u8>> = Vec::new();
    let mut start: usize = 0;
    assert(bytes@.skip(0) =~= bytes@);
    while start < len
        invariant
            len == bytes@.len(),
            start <= len,
            byte_strings(args@) + arguments(lines_of(bytes@.skip(start as int))) == arguments(lines_of(bytes@)),
        decreases len - start,
    {
        let ghost rest = bytes@.skip(start as int);
        let mut end: usize = start;
        while end < len && bytes[end] != 10u8
            invariant
                start <= end <= len,
                len == bytes@.len(),
                forall|k: int| start <= k < end ==> bytes@[k] != 10u8,
            decreases len - end,
        {
            end += 1;
        }
        let stop: usize = if end < len { end + 1 } else { len };
        let line = vstd::slice::slice_subrange(bytes, start, stop);
        proof {
            lemma_first_line(rest, (stop - start) as nat);
            assert(rest.skip(stop - start) =~= bytes@.skip(stop as int));
            assert(rest.take(stop - start) =~= line@);
            lemma_arguments_cons(line@, lines_of(bytes@.skip(stop as int)));
        }
        let t = trim(line);
        let ghost before = byte_strings(args@);
        if t.len() > 0 && t[0] != 35u8 {
            args.push(t);
            assert(byte_strings(args@) =~= before + seq![unicode_trimmed(line@)]);
        } else {
            assert(!is_argument(unicode_trimmed(line@)));
        }
        assert(byte_strings(args@) + arguments(lines_of(bytes@.skip(stop as int)))
            =~= before + arguments(lines_of(rest)));
        start = stop;
    }
    assert(bytes@.skip(len as int) =~= Seq::<u8>::empty());
    assert(arguments(lines_of(bytes@.skip(len as int))) == Seq::<Seq<u8>>::empty()) by {
        reveal(lines_of);
        reveal(arguments);
    }
    assert(byte_strings(args@) =~= byte_strings(args@) + arguments(lines_of(bytes@.skip(len as int))));
    (args, Vec::new())
}

/// Splices the arguments read from a configuration file into those given on
/// the command line: after the first `leading` command-line arguments (the
/// program, and the subcommand where there is one), before the rest.
pub fn merge_config_and_cli_args<T>(config_args: Vec<T>, cli_args: Vec<T>, leading: usize) -> (r: Vec<T>)
    ensures
        ({
            let k = if leading <= cli_args@.len() { leading as int } else { cli_args@.len() as int };
            r@ == cli_args@.take(k) + config_args@ + cli_args@.skip(k)
        }),
{
    let mut head = cli_args;
    let k = if leading <= head.len() { leading } else { head.len() };
    let mut tail = head.split_off(k);
    let mut config = config_args;
    head.append(&mut config);
    head.append(&mut tail);
    head
}

} // verus!

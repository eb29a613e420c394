use vstd::prelude::*;

use crate::error::NftgenError;
use crate::layer::Layer;
use crate::layer_group::{group_ok, is_group_of, layers_parse, string_texts, texts, LayerGroup};
use crate::path::path_file_name;
use crate::text::{first_index, lemma_first_index_found};

verus! {

/// A directory of layer files as listed from disk: its path and the paths of
/// the files in it.
#[derive(Debug, Clone)]
pub struct LayerDir {
    pub path: String,
    pub files: Vec<String>,
}

/// Whether the directory `d` makes a group under the declared order.
pub open spec fn dir_ok(d: LayerDir, order: Seq<Seq<char>>) -> bool {
    group_ok(d.path@, string_texts(d.files@), order)
}

/// Whether the directory `d` is named, and its name is missing from the
/// declared order.
pub open spec fn undeclared(d: LayerDir, order: Seq<Seq<char>>) -> bool {
    &&& path_file_name(d.path@) matches Some(name)
    &&& first_index(order, name) is None
}

/// Whether the directory `d` is named and all its PNG files become layers.
pub open spec fn named_and_parsed(d: LayerDir) -> bool {
    &&& path_file_name(d.path@) is Some
    &&& layers_parse(string_texts(d.files@))
}

/// Whether no two of `dirs` have the same name.
pub open spec fn names_distinct(dirs: Seq<LayerDir>) -> bool {
    forall|i: int, j: int| 0 <= i < j < dirs.len() ==> path_file_name(#[trigger] dirs[i].path@) != path_file_name(#[trigger] dirs[j].path@)
}

/// Whether `groups` is sorted by their place in the declared order.
pub open spec fn sorted_by_order(groups: Seq<LayerGroup>) -> bool {
    forall|i: int, j: int| 0 <= i < j < groups.len() ==> groups[i].order <= groups[j].order
}

/// Two groups that share a place in the order, if there are any.
fn shared_order(groups: &Vec<LayerGroup>) -> (r: Option<(usize, usize)>)
    ensures
        r matches Some((a, b)) ==> a < b < groups@.len() && groups@[a as int].order == groups@[b as int].order,
        r is None ==> forall|i: int, j: int| 0 <= i < j < groups@.len() ==> (#[trigger] groups@[i]).order != (#[trigger] groups@[j]).order,
{
    let mut a: usize = 0;
    while a < groups.len()
        invariant
            a <= groups@.len(),
            forall|i: int, j: int| 0 <= i < a && i < j < groups@.len() ==> (#[trigger] groups@[i]).order != (#[trigger] groups@[j]).order,
        decreases groups@.len() - a,
    {
        let mut b: usize = a + 1;
        while b < groups.len()
            invariant
                a < groups@.len(),
                a < b <= groups@.len(),
                forall|j: int| a < j < b ==> groups@[a as int].order != (#[trigger] groups@[j]).order,
            decreases groups@.len() - b,
        {
            if groups[a].order == groups[b].order {
                return Some((a, b));
            }
            b += 1;
        }
        a += 1;
    }
    None
}

/// Builds one group from each of `layer_dirs`, in order, placing each in
/// `layers_order`. Fails on the first directory that makes no group, among
/// them any whose name `layers_order` does not hold, and then where two
/// directories share a name, and so a place in the order.
pub fn get_layer_groups(layer_dirs: &[LayerDir], layers_order: &[&str]) -> (r: Result<Vec<LayerGroup>, NftgenError>)
    ensures
        r is Ok <==> (forall|i: int| 0 <= i < layer_dirs@.len() ==> dir_ok(#[trigger] layer_dirs@[i], texts(layers_order@)))
            && names_distinct(layer_dirs@),
        (exists|i: int| 0 <= i < layer_dirs@.len() && undeclared(#[trigger] layer_dirs@[i], texts(layers_order@))) ==> r is Err,
        (forall|i: int| 0 <= i < layer_dirs@.len() ==> named_and_parsed(#[trigger] layer_dirs@[i]))
            && (exists|i: int| 0 <= i < layer_dirs@.len() && undeclared(#[trigger] layer_dirs@[i], texts(layers_order@))) ==>
            (r matches Err(e) && (e matches NftgenError::UnknownLayer(n) && exists|i: int| 0 <= i < layer_dirs@.len()
                && undeclared(#[trigger] layer_dirs@[i], texts(layers_order@))
                && path_file_name(layer_dirs@[i].path@) == Some(n@))),
        r matches Ok(groups) ==> groups@.len() == layer_dirs@.len() && forall|i: int| 0 <= i < groups@.len() ==>
            is_group_of(#[trigger] groups@[i], layer_dirs@[i].path@, string_texts(layer_dirs@[i].files@), texts(layers_order@)),
{
    let ghost order = texts(layers_order@);
    let mut groups: Vec<LayerGroup> = Vec::new();
    let mut i: usize = 0;
    while i < layer_dirs.len()
        invariant
            i <= layer_dirs@.len(),
            order == texts(layers_order@),
            groups@.len() == i,
            forall|k: int| 0 <= k < i ==> dir_ok(#[trigger] layer_dirs@[k], order),
            forall|k: int| 0 <= k < i ==>
                is_group_of(#[trigger] groups@[k], layer_dirs@[k].path@, string_texts(layer_dirs@[k].files@), order),
        decreases layer_dirs@.len() - i,
    {
        let dir = &layer_dirs[i];
        match LayerGroup::new(dir.path.as_str(), dir.files.as_slice(), layers_order) {
            Ok(g) => {
                groups.push(g);
            },
            Err(e) => {
                proof {
                    if named_and_parsed(layer_dirs@[i as int]) {
                        assert(undeclared(layer_dirs@[i as int], order));
                    }
                }
                return Err(e);
            },
        }
        i += 1;
    }
    proof {
        assert forall|k: int| 0 <= k < layer_dirs@.len() implies !undeclared(#[trigger] layer_dirs@[k], order) by {
            assert(dir_ok(layer_dirs@[k], order));
        }
    }
    match shared_order(&groups) {
        Some((a, b)) => {
            proof {
                let (ga, gb) = (groups@[a as int], groups@[b as int]);
                assert(is_group_of(ga, layer_dirs@[a as int].path@, string_texts(layer_dirs@[a as int].files@), order));
                assert(is_group_of(gb, layer_dirs@[b as int].path@, string_texts(layer_dirs@[b as int].files@), order));
                lemma_first_index_found(order, ga.layer_type@);
                lemma_first_index_found(order, gb.layer_type@);
            }
            return Err(NftgenError::DuplicateLayer(groups[b].layer_type.clone()));
        },
        None => {},
    }
    proof {
        assert forall|i: int, j: int| 0 <= i < j < layer_dirs@.len() implies
            path_file_name(#[trigger] layer_dirs@[i].path@) != path_file_name(#[trigger] layer_dirs@[j].path@) by {
            assert(is_group_of(groups@[i], layer_dirs@[i].path@, string_texts(layer_dirs@[i].files@), order));
            assert(is_group_of(groups@[j], layer_dirs@[j].path@, string_texts(layer_dirs@[j].files@), order));
            assert(groups@[i].order != groups@[j].order);
        }
    }
    Ok(groups)
}

/// Sorts `groups` by their place in the declared order, bottom layer first.
pub fn sort_layer_groups(groups: Vec<LayerGroup>) -> (r: Vec<LayerGroup>)
    ensures
        sorted_by_order(r@),
        r@.to_multiset() == groups@.to_multiset(),
{
    broadcast use vstd::seq_lib::group_to_multiset_ensures;
    let mut rest = groups;
    let mut out: Vec<LayerGroup> = Vec::new();
    while rest.len() > 0
        invariant
            sorted_by_order(out@),
            out@.to_multiset().add(rest@.to_multiset()) == groups@.to_multiset(),
        decreases rest@.len(),
    {
        let ghost before = rest@;
        let g = rest.pop().unwrap();
        assert(before =~= rest@.push(g));
        let mut p: usize = 0;
        while p < out.len() && out[p].order <= g.order
            invariant
                p <= out@.len(),
                forall|k: int| 0 <= k < p ==> out@[k].order <= g.order,
            decreases out@.len() - p,
        {
            p += 1;
        }
        let ghost old_out = out@;
        out.insert(p, g);
        proof {
            assert(out@ == old_out.insert(p as int, g));
            assert forall|i: int, j: int| 0 <= i < j < out@.len() implies out@[i].order <= out@[j].order by {
                if j < p {
                } else if j == p {
                } else if i < p {
                    assert(out@[j] == old_out[j - 1]);
                    if p < old_out.len() {
                        assert(g.order < old_out[p as int].order);
                        assert(old_out[p as int].order <= old_out[j - 1].order || j - 1 == p);
                    }
                } else if i == p {
                    assert(out@[j] == old_out[j - 1]);
                    assert(g.order < old_out[p as int].order);
                    assert(old_out[p as int].order <= old_out[j - 1].order || j - 1 == p);
                } else {
                    assert(out@[i] == old_out[i - 1]);
                    assert(out@[j] == old_out[j - 1]);
                }
            }
            vstd::seq_lib::to_multiset_insert(old_out, p as int, g);
            vstd::seq_lib::to_multiset_build(rest@, g);
            assert(out@.to_multiset().add(rest@.to_multiset()) =~= old_out.to_multiset().add(before.to_multiset()));
        }
    }
    out
}

/// Draws one variant from each group, in the groups' order.
pub fn draw_layers<'a>(groups: &'a [LayerGroup]) -> (r: Vec<&'a Layer>)
    requires
        forall|i: int| 0 <= i < groups@.len() ==> (#[trigger] groups@[i]).drawable(),
    ensures
        r@.len() == groups@.len(),
        forall|i: int| 0 <= i < r@.len() ==> groups@[i].holds_positive(*#[trigger] r@[i]),
{
    let mut drawn: Vec<&'a Layer> = Vec::new();
    let mut i: usize = 0;
    while i < groups.len()
        invariant
            i <= groups@.len(),
            drawn@.len() == i,
            forall|j: int| 0 <= j < groups@.len() ==> (#[trigger] groups@[j]).drawable(),
            forall|j: int| 0 <= j < i ==> groups@[j].holds_positive(*#[trigger] drawn@[j]),
        decreases groups@.len() - i,
    {
        let l = groups[i].pick();
        drawn.push(l);
        i += 1;
    }
    drawn
}

} // verus!

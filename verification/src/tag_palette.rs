//! A post's tags grouped by kind for the tag palette, in the palette's order of kinds.
use vstd::prelude::*;

use crate::model::Tag;

verus! {

/// The tags whose kind is `k`, in their order.
pub open spec fn of_kind(tags: Seq<Seq<char>>, kinds: Seq<u8>, k: u8) -> Seq<Seq<char>>
    decreases tags.len(),
{
    if tags.len() == 0 {
        Seq::empty()
    } else {
        let rest = of_kind(tags.drop_last(), kinds.drop_last(), k);
        if kinds.last() == k { rest.push(tags.last()) } else { rest }
    }
}

/// For each kind of `order` that some tag has, the kind and its tags.
pub open spec fn palette(tags: Seq<Seq<char>>, kinds: Seq<u8>, order: Seq<u8>) -> Seq<(u8, Seq<Seq<char>>)>
    decreases order.len(),
{
    if order.len() == 0 {
        Seq::empty()
    } else {
        let rest = palette(tags, kinds, order.drop_last());
        let group = of_kind(tags, kinds, order.last());
        if group.len() > 0 { rest.push((order.last(), group)) } else { rest }
    }
}

pub open spec fn tag_views(v: Seq<Tag>) -> Seq<Seq<char>> {
    v.map_values(|t: Tag| t@)
}

pub open spec fn groups_view(v: Seq<(u8, Vec<Tag>)>) -> Seq<(u8, Seq<Seq<char>>)> {
    v.map_values(|g: (u8, Vec<Tag>)| (g.0, tag_views(g.1@)))
}

fn tags_of_kind(tags: &[Tag], kinds: &[u8], k: u8) -> (r: Vec<Tag>)
    requires
        tags@.len() == kinds@.len(),
    ensures
        tag_views(r@) == of_kind(tag_views(tags@), kinds@, k),
{
    let ghost tv = tag_views(tags@);
    let mut out: Vec<Tag> = Vec::new();
    let mut i: usize = 0;
    while i < tags.len()
        invariant
            i <= tags@.len() == kinds@.len(),
            tv == tag_views(tags@),
            tag_views(out@) == of_kind(tv.take(i as int), kinds@.take(i as int), k),
        decreases tags.len() - i,
    {
        assert(tv.take(i + 1).drop_last() =~= tv.take(i as int));
        assert(kinds@.take(i + 1).drop_last() =~= kinds@.take(i as int));
        assert(tv.take(i + 1).last() == tags@[i as int]@);
        if kinds[i] == k {
            let ghost before = tag_views(out@);
            out.push(tags[i].copy());
            assert(tag_views(out@) =~= before.push(tags@[i as int]@));
        }
        i = i + 1;
    }
    assert(tv.take(i as int) =~= tv);
    assert(kinds@.take(i as int) =~= kinds@);
    out
}

/// The post's tags, each with its kind, grouped by kind in the order `order` gives the
/// kinds; kinds without tags are left out.
pub fn grouped(tags: &[Tag], kinds: &[u8], order: &[u8]) -> (r: Vec<(u8, Vec<Tag>)>)
    requires
        tags@.len() == kinds@.len(),
    ensures
        groups_view(r@) == palette(tag_views(tags@), kinds@, order@),
{
    let ghost tv = tag_views(tags@);
    let mut out: Vec<(u8, Vec<Tag>)> = Vec::new();
    let mut j: usize = 0;
    while j < order.len()
        invariant
            j <= order@.len(),
            tags@.len() == kinds@.len(),
            tv == tag_views(tags@),
            groups_view(out@) == palette(tv, kinds@, order@.take(j as int)),
        decreases order.len() - j,
    {
        assert(order@.take(j + 1).drop_last() =~= order@.take(j as int));
        assert(order@.take(j + 1).last() == order@[j as int]);
        let k = order[j];
        let group = tags_of_kind(tags, kinds, k);
        if group.len() > 0 {
            let ghost before = groups_view(out@);
            let ghost gv = tag_views(group@);
            out.push((k, group));
            assert(groups_view(out@) =~= before.push((k, gv)));
        }
        j = j + 1;
    }
    assert(order@.take(j as int) =~= order@);
    out
}

} // verus!

//! Helpers shared by the subcommands.

use crate::models::repo_tag::RepoTag;
use crate::models::result::strs;
use crate::order::views;
use crate::paint::{blue, blue_code, green, green_code, shown_as};
use crate::pieces::{join_strs, join_with, split_at_pat, split_str, trim_str, trimmed};
use vstd::prelude::*;

verus! {

/// `out` is `s` shown with its pattern `p` picked out: the pieces of `s`
/// between the occurrences of `p`, each shown blue, with `p` shown green
/// between them.
pub open spec fn pattern_shown(out: Seq<char>, s: Seq<char>, p: Seq<char>) -> bool {
    exists|outs: Seq<Seq<char>>, g: Seq<char>|
        #![trigger join_with(outs, g)]
        outs.len() == split_at_pat(s, p).len() && (forall|i: int|
            0 <= i < outs.len() ==> shown_as(#[trigger] outs[i], split_at_pat(s, p)[i], blue_code()))
            && shown_as(g, p, green_code()) && out == join_with(outs, g)
}

/// `string` painted blue, with each occurrence of `pat`, where there is one,
/// painted green: the pieces between the occurrences are painted one by one.
pub fn print_str_pat<'a>(string: &'a str, pat: Option<&str>) -> (r: String)
    ensures
        pat is None ==> shown_as(r@, string@, blue_code()),
        pat matches Some(p) ==> pattern_shown(r@, string@, p@),
{
    match pat {
        Some(p) => {
            let pieces = split_str(string, p);
            let sep = green(p);
            let mut outs: Vec<String> = Vec::new();
            let mut i: usize = 0;
            while i < pieces.len()
                invariant
                    i <= pieces.len(),
                    outs@.len() == i,
                    strs(pieces) == split_at_pat(string@, p@),
                    forall|k: int|
                        0 <= k < i ==> shown_as(#[trigger] strs(outs)[k], strs(pieces)[k], blue_code()),
                decreases pieces.len() - i,
            {
                let ghost prev = strs(outs);
                let b = blue(pieces[i].as_str());
                outs.push(b);
                assert(strs(outs) =~= prev.push(b@));
                i += 1;
            }
            let r = join_strs(&outs, sep.as_str());
            assert(shown_as(sep@, p@, green_code()));
            r
        },
        None => blue(string),
    }
}

/// The tags named in command line arguments: each argument split at commas,
/// each piece trimmed of white space.
pub open spec fn tag_args(args: Seq<Seq<char>>) -> Seq<Seq<char>>
    decreases args.len(),
{
    if args.len() == 0 {
        Seq::empty()
    } else {
        tag_args(args.drop_last()) + split_at_pat(args.last(), seq![',']).map_values(
            |piece: Seq<char>| trimmed(piece),
        )
    }
}

/// The tags named by several arguments are those named by each, in turn; an
/// argument of names joined by commas (no name holding a comma) names those
/// names, trimmed of white space.
pub proof fn law_tag_args_split_at_commas(a: Seq<Seq<char>>, b: Seq<Seq<char>>, names: Seq<Seq<char>>)
    ensures
        tag_args(a + b) == tag_args(a) + tag_args(b),
        (names.len() > 0 && forall|i: int|
            0 <= i < names.len() ==> !(#[trigger] names[i]).contains(',')) ==> tag_args(
            seq![join_with(names, seq![','])],
        ) == names.map_values(|n: Seq<char>| trimmed(n)),
    decreases b.len(),
{
    if b.len() > 0 {
        law_tag_args_split_at_commas(a, b.drop_last(), names);
        assert((a + b).drop_last() =~= a + b.drop_last());
        assert((a + b).last() == b.last());
        assert(tag_args(a) + tag_args(b) =~= tag_args(a) + tag_args(b.drop_last()) + split_at_pat(
            b.last(),
            seq![','],
        ).map_values(|piece: Seq<char>| trimmed(piece)));
    } else {
        assert(a + b =~= a);
        assert(tag_args(b) =~= Seq::<Seq<char>>::empty());
        assert(tag_args(a) + tag_args(b) =~= tag_args(a));
    }
    if names.len() > 0 && forall|i: int| 0 <= i < names.len() ==> !(#[trigger] names[i]).contains(',') {
        crate::pieces::law_split_undoes_join(names, ',');
        let one = seq![join_with(names, seq![','])];
        assert(one.drop_last() =~= Seq::<Seq<char>>::empty());
        assert(one.last() == join_with(names, seq![',']));
        assert(tag_args(one.drop_last()) == Seq::<Seq<char>>::empty());
        assert(tag_args(one) == tag_args(one.drop_last()) + split_at_pat(one.last(), seq![',']).map_values(
            |piece: Seq<char>| trimmed(piece),
        ));
        assert(tag_args(one) =~= names.map_values(|n: Seq<char>| trimmed(n)));
    }
}

/// The tags named in command line arguments, in order.
pub fn parse_tag_args(args: &Vec<&str>) -> (r: Vec<RepoTag>)
    ensures
        views(r@) == tag_args(args@.map_values(|a: &str| a@)),
{
    let ghost all = args@.map_values(|a: &str| a@);
    let mut r: Vec<RepoTag> = Vec::new();
    let mut i: usize = 0;
    while i < args.len()
        invariant
            i <= args.len(),
            all == args@.map_values(|a: &str| a@),
            views(r@) == tag_args(all.take(i as int)),
        decreases args.len() - i,
    {
        let pieces = split_str(args[i], ",");
        proof {
            reveal_strlit(",");
            assert(","@ =~= seq![',']);
        }
        let ghost before = views(r@);
        let mut j: usize = 0;
        while j < pieces.len()
            invariant
                j <= pieces.len(),
                i < args.len(),
                strs(pieces) == split_at_pat(args@[i as int]@, seq![',']),
                views(r@) == before + strs(pieces).take(j as int).map_values(
                    |piece: Seq<char>| trimmed(piece),
                ),
            decreases pieces.len() - j,
        {
            let ghost prev = r@;
            let t = trim_str(pieces[j].as_str());
            let tag = RepoTag::from(t);
            r.push(tag);
            assert(r@ =~= prev.push(tag));
            assert(views(r@) =~= views(prev).push(tag@));
            assert(strs(pieces).take(j + 1).map_values(|piece: Seq<char>| trimmed(piece))
                =~= strs(pieces).take(j as int).map_values(|piece: Seq<char>| trimmed(piece)).push(
                trimmed(strs(pieces)[j as int]),
            ));
            j += 1;
        }
        proof {
            assert(strs(pieces).take(j as int) =~= strs(pieces));
            let t = all.take(i + 1);
            assert(t.drop_last() =~= all.take(i as int));
            assert(t.last() == args@[i as int]@);
        }
        i += 1;
    }
    assert(all.take(i as int) =~= all);
    r
}

} // verus!

//! Listings: records shown newest first.
use vstd::prelude::*;
use vstd::multiset::Multiset;
use vstd::seq_lib::{to_multiset_build, to_multiset_insert};
use crate::record::{GameDB, GameDBView, Save, SaveView, duplicate_all, has_name, views};
use crate::text::{lex_lt, text_before, lemma_lex_irreflexive, lemma_lex_transitive};

verus! {

broadcast use {vstd::multiset::group_multiset_axioms, vstd::seq_lib::group_to_multiset_ensures};

/// No record of `s` is older than a record after it (timestamps compared as text).
pub open spec fn newest_first(s: Seq<SaveView>) -> bool {
    forall|i: int, j: int|
        0 <= i < j < s.len() ==> !lex_lt(#[trigger] s[i].timestamp, #[trigger] s[j].timestamp)
}

/// The records of `v`, newest first.
pub fn sort_newest_first(v: Vec<Save>) -> (r: Vec<Save>)
    ensures
        views(r@).to_multiset() == views(v@).to_multiset(),
        newest_first(views(r@)),
{
    let ghost orig = views(v@);
    let mut v = v;
    let mut r: Vec<Save> = Vec::new();
    proof {
        assert(views(r@) =~= Seq::<SaveView>::empty());
        assert(views(r@).to_multiset() =~= Multiset::<SaveView>::empty());
    }
    while v.len() > 0
        invariant
            views(r@).to_multiset().add(views(v@).to_multiset()) == orig.to_multiset(),
            newest_first(views(r@)),
        decreases v.len(),
    {
        let ghost before = v@;
        let x = v.pop().unwrap();
        proof {
            assert(views(before) =~= views(v@).push(x@));
            to_multiset_build(views(v@), x@);
        }
        let mut k: usize = 0;
        while k < r.len() && !text_before(r[k].timestamp.as_str(), x.timestamp.as_str())
            invariant
                k <= r@.len(),
                forall|j: int| 0 <= j < k ==> !lex_lt(#[trigger] r@[j].timestamp@, x.timestamp@),
            decreases r.len() - k,
        {
            k = k + 1;
        }
        let ghost rv = views(r@);
        proof {
            assert forall|j: int| 0 <= j < k implies !lex_lt(#[trigger] rv[j].timestamp, x@.timestamp) by {
                assert(rv[j] == r@[j]@);
            }
            if k < r.len() {
                assert forall|j: int| k <= j < rv.len() implies !lex_lt(x@.timestamp, #[trigger] rv[j].timestamp) by {
                    if lex_lt(x@.timestamp, rv[j].timestamp) {
                        lemma_lex_transitive(rv[k as int].timestamp, x@.timestamp, rv[j].timestamp);
                        if j == k {
                            lemma_lex_irreflexive(rv[j].timestamp);
                        }
                    }
                }
            }
            assert(views(r@.insert(k as int, x)) =~= rv.insert(k as int, x@));
            to_multiset_insert(rv, k as int, x@);
        }
        r.insert(k, x);
        proof {
            let nv = views(r@);
            assert forall|i: int, j: int| 0 <= i < j < nv.len() implies !lex_lt(
                #[trigger] nv[i].timestamp,
                #[trigger] nv[j].timestamp,
            ) by {
                if j < k {
                    assert(nv[i] == rv[i] && nv[j] == rv[j]);
                } else if j == k {
                    assert(nv[i] == rv[i] && nv[j] == x@);
                } else if i < k {
                    assert(nv[i] == rv[i] && nv[j] == rv[j - 1]);
                } else if i == k {
                    assert(nv[i] == x@ && nv[j] == rv[j - 1]);
                } else {
                    assert(nv[i] == rv[i - 1] && nv[j] == rv[j - 1]);
                }
            }
            assert(views(r@).to_multiset().add(views(v@).to_multiset()) =~= orig.to_multiset());
        }
    }
    proof {
        assert(views(v@) =~= Seq::<SaveView>::empty());
        assert(views(r@).to_multiset() =~= orig.to_multiset());
    }
    r
}

/// The active saves, newest first.
pub fn list_saves(db: &GameDB) -> (r: Vec<Save>)
    ensures
        views(r@).to_multiset() == db@.saves.to_multiset(),
        newest_first(views(r@)),
{
    sort_newest_first(duplicate_all(&db.saves))
}

/// The trashed saves, newest first.
pub fn list_trash(db: &GameDB) -> (r: Vec<Save>)
    ensures
        views(r@).to_multiset() == db@.trash.to_multiset(),
        newest_first(views(r@)),
{
    sort_newest_first(duplicate_all(&db.trash))
}

/// The line that shows a record in a listing: `<timestamp> - <name>`.
pub fn listing_line(s: &Save) -> (r: String)
    ensures
        r@ == s.timestamp@ + seq![' ', '-', ' '] + s.name@,
{
    let sep = " - ";
    proof {
        reveal_strlit(" - ");
    }
    let mut r = s.timestamp.clone();
    r.append(sep);
    r.append(s.name.as_str());
    assert(sep@ =~= seq![' ', '-', ' ']);
    r
}

/// A record that was just added shows up in the listing of active saves.
pub proof fn lemma_added_is_listed(db: GameDBView, x: SaveView, listed: Seq<SaveView>)
    requires
        listed.to_multiset() == db.with_save(x).saves.to_multiset(),
    ensures
        listed.contains(x),
        has_name(listed, x.name),
{
    let s = db.with_save(x).saves;
    assert(s[s.len() - 1] == x);
    assert(s.contains(x));
    assert(s.to_multiset().count(x) > 0);
    let i = choose|i: int| 0 <= i < listed.len() && listed[i] == x;
    assert(listed[i].name == x.name);
}

} // verus!

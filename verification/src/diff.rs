//! Diff engine: compares two decoded record collections by record id and
//! reports ids present only on one side and ids whose records differ.

use vstd::prelude::*;

verus! {

use std::collections::HashMap;
use crate::{Record, RecordV};

broadcast use vstd::std_specs::hash::group_hash_axioms;

/// The index of a record sequence by id: later records win on duplicates.
pub open spec fn index_by_id(rs: Seq<RecordV>) -> Map<u64, RecordV>
    decreases rs.len(),
{
    if rs.len() == 0 {
        Map::empty()
    } else {
        index_by_id(rs.drop_last()).insert(rs.last().id, rs.last())
    }
}

/// Whether one of the first `n` records carries the given id.
pub open spec fn id_in_prefix(rs: Seq<RecordV>, n: int, id: u64) -> bool {
    exists|k: int| 0 <= k < n && k < rs.len() && #[trigger] rs[k].id == id
}

/// An id is indexed exactly when some record carries it.
pub proof fn lemma_index_dom(rs: Seq<RecordV>, id: u64)
    ensures
        index_by_id(rs).contains_key(id) <==> id_in_prefix(rs, rs.len() as int, id),
    decreases rs.len(),
{
    if rs.len() > 0 {
        lemma_index_dom(rs.drop_last(), id);
        if rs.last().id == id {
            assert(rs[rs.len() - 1].id == id);
        } else {
            if id_in_prefix(rs, rs.len() as int, id) {
                let k = choose|k: int|
                    0 <= k < rs.len() && k < rs.len() && #[trigger] rs[k].id == id;
                if k < rs.len() - 1 {
                    assert(rs.drop_last()[k].id == id);
                }
            }
            if index_by_id(rs.drop_last()).contains_key(id) {
                let k = choose|k: int|
                    0 <= k < rs.drop_last().len() && k < rs.drop_last().len()
                        && #[trigger] rs.drop_last()[k].id == id;
                assert(rs[k].id == id);
            }
        }
    }
}

/// Extending a prefix by one record adds exactly that record's id.
proof fn lemma_prefix_step(rs: Seq<RecordV>, i: int)
    requires
        0 <= i < rs.len(),
    ensures
        forall|id: u64| #[trigger]
            id_in_prefix(rs, i + 1, id) <==> (id_in_prefix(rs, i, id) || rs[i].id == id),
{
    assert forall|id: u64| #[trigger]
        id_in_prefix(rs, i + 1, id) <==> (id_in_prefix(rs, i, id) || rs[i].id == id) by {
        if id_in_prefix(rs, i + 1, id) {
            let k = choose|k: int| 0 <= k < i + 1 && k < rs.len() && #[trigger] rs[k].id == id;
            if k < i {
                assert(id_in_prefix(rs, i, id));
            }
        }
        if rs[i].id == id {
            assert(id_in_prefix(rs, i + 1, id));
        }
    }
}

/// The index of the first record carrying the given id; the length where
/// none does.
pub open spec fn first_pos(rs: Seq<RecordV>, id: u64) -> int
    decreases rs.len(),
{
    if rs.len() == 0 {
        0
    } else if rs[0].id == id {
        0
    } else {
        1 + first_pos(rs.drop_first(), id)
    }
}

/// The ids stand in order of their first occurrence in the record sequence.
pub open spec fn ordered_by_first_occurrence(ids: Seq<u64>, rs: Seq<RecordV>) -> bool {
    forall|p: int, q: int|
        0 <= p < q < ids.len() ==> first_pos(rs, ids[p]) < first_pos(rs, ids[q])
}

/// A record before whose position its id does not occur stands at its id's
/// first occurrence.
proof fn lemma_first_pos_at(rs: Seq<RecordV>, i: int, id: u64)
    requires
        0 <= i < rs.len(),
        rs[i].id == id,
        !id_in_prefix(rs, i, id),
    ensures
        first_pos(rs, id) == i,
    decreases i,
{
    if rs[0].id == id {
        if i > 0 {
            assert(id_in_prefix(rs, i, id));
            assert(false);
        }
    } else {
        assert(i > 0);
        assert(rs.drop_first()[i - 1].id == id);
        assert(!id_in_prefix(rs.drop_first(), i - 1, id)) by {
            if id_in_prefix(rs.drop_first(), i - 1, id) {
                let f = rs.drop_first();
                let k = choose|k: int| 0 <= k < i - 1 && k < f.len() && #[trigger] f[k].id == id;
                assert(rs[k + 1].id == id);
                assert(id_in_prefix(rs, i, id));
            }
        }
        lemma_first_pos_at(rs.drop_first(), i - 1, id);
    }
}

/// A sequence has no repeated elements.
pub open spec fn no_duplicates(s: Seq<u64>) -> bool {
    forall|i: int, j: int| 0 <= i < j < s.len() ==> s[i] != s[j]
}

/// Index the records by id, later records winning on duplicate ids.
pub fn records_to_map(records: &Vec<Record>) -> (m: HashMap<u64, Record>)
    ensures
        forall|id: u64| #[trigger]
            m@.contains_key(id) <==> index_by_id(records.deep_view()).contains_key(id),
        forall|id: u64| #[trigger]
            m@.contains_key(id) ==> m@[id].deep_view() == index_by_id(records.deep_view())[id],
{
    let mut m: HashMap<u64, Record> = HashMap::new();
    let n = records.len();
    let mut i: usize = 0;
    proof {
        assert(records.deep_view().take(0) =~= Seq::<RecordV>::empty());
    }
    while i < n
        invariant
            0 <= i <= n,
            n == records@.len(),
            m@.dom() =~= index_by_id(records.deep_view().take(i as int)).dom(),
            forall|id: u64| #[trigger]
                m@.contains_key(id) ==> m@[id].deep_view() == index_by_id(
                    records.deep_view().take(i as int),
                )[id],
        decreases n - i,
    {
        let rec = records[i].clone();
        m.insert(rec.id, rec);
        proof {
            assert(records.deep_view().take(i + 1).drop_last() =~= records.deep_view().take(
                i as int,
            ));
            assert(records.deep_view().take(i + 1).last() == records.deep_view()[i as int]);
        }
        i = i + 1;
    }
    proof {
        assert(records.deep_view().take(n as int) =~= records.deep_view());
    }
    m
}

/// The outcome of comparing two record collections by id.
pub struct DiffReport {
    /// Ids present only in the first collection, in order of first occurrence
    pub only_in_first: Vec<u64>,
    /// Ids present only in the second collection, in order of first occurrence
    pub only_in_second: Vec<u64>,
    /// Ids present in both collections whose records differ, in order of
    /// first occurrence in the first collection
    pub differing: Vec<u64>,
}

impl DiffReport {
    /// Whether the two collections hold exactly the same records.
    pub fn is_identical(&self) -> (r: bool)
        ensures
            r == (self.only_in_first@.len() == 0 && self.only_in_second@.len() == 0
                && self.differing@.len() == 0),
    {
        self.only_in_first.len() == 0 && self.only_in_second.len() == 0 && self.differing.len()
            == 0
    }
}

/// Compare two record collections by id: ids only in the first, ids only in
/// the second, and ids present in both whose records differ, each id listed
/// once, in order of first occurrence (insertion-stable, so deterministic).
/// Neither input is an error, whatever duplicate ids it holds: later records
/// win.
pub fn diff_records(a: &Vec<Record>, b: &Vec<Record>) -> (r: DiffReport)
    ensures
        ({
            let m1 = index_by_id(a.deep_view());
            let m2 = index_by_id(b.deep_view());
            &&& no_duplicates(r.only_in_first@)
            &&& no_duplicates(r.only_in_second@)
            &&& no_duplicates(r.differing@)
            &&& ordered_by_first_occurrence(r.only_in_first@, a.deep_view())
            &&& ordered_by_first_occurrence(r.only_in_second@, b.deep_view())
            &&& ordered_by_first_occurrence(r.differing@, a.deep_view())
            &&& forall|id: u64| #[trigger]
                r.only_in_first@.contains(id) <==> m1.contains_key(id) && !m2.contains_key(id)
            &&& forall|id: u64| #[trigger]
                r.only_in_second@.contains(id) <==> m2.contains_key(id) && !m1.contains_key(id)
            &&& forall|id: u64| #[trigger]
                r.differing@.contains(id) <==> m1.contains_key(id) && m2.contains_key(id)
                    && m1[id] != m2[id]
        }),
{
    let ghost m1 = index_by_id(a.deep_view());
    let ghost m2 = index_by_id(b.deep_view());
    let map1 = records_to_map(a);
    let map2 = records_to_map(b);
    let mut only_in_first: Vec<u64> = Vec::new();
    let mut only_in_second: Vec<u64> = Vec::new();
    let mut differing: Vec<u64> = Vec::new();
    let n1 = a.len();
    let mut i: usize = 0;
    while i < n1
        invariant
            0 <= i <= n1,
            n1 == a@.len(),
            m1 == index_by_id(a.deep_view()),
            m2 == index_by_id(b.deep_view()),
            forall|id: u64| #[trigger]
                map1@.contains_key(id) <==> m1.contains_key(id),
            forall|id: u64| #[trigger]
                map1@.contains_key(id) ==> map1@[id].deep_view() == m1[id],
            forall|id: u64| #[trigger]
                map2@.contains_key(id) <==> m2.contains_key(id),
            forall|id: u64| #[trigger]
                map2@.contains_key(id) ==> map2@[id].deep_view() == m2[id],
            no_duplicates(only_in_first@),
            no_duplicates(differing@),
            ordered_by_first_occurrence(only_in_first@, a.deep_view()),
            ordered_by_first_occurrence(differing@, a.deep_view()),
            forall|k: int|
                0 <= k < only_in_first@.len() ==> first_pos(
                    a.deep_view(),
                    #[trigger] only_in_first@[k],
                ) < i,
            forall|k: int|
                0 <= k < differing@.len() ==> first_pos(a.deep_view(), #[trigger] differing@[k])
                    < i,
            forall|id: u64| #[trigger]
                only_in_first@.contains(id) <==> (id_in_prefix(a.deep_view(), i as int, id)
                    && !m2.contains_key(id)),
            forall|id: u64| #[trigger]
                differing@.contains(id) <==> (id_in_prefix(a.deep_view(), i as int, id)
                    && m2.contains_key(id) && m1[id] != m2[id]),
        decreases n1 - i,
    {
        let id = a[i].id;
        let mut seen = false;
        let mut k: usize = 0;
        while k < i
            invariant
                0 <= k <= i <= n1,
                n1 == a@.len(),
                id == a.deep_view()[i as int].id,
                seen == id_in_prefix(a.deep_view(), k as int, id),
            decreases i - k,
        {
            if a[k].id == id {
                proof {
                    assert(a.deep_view()[k as int].id == id);
                }
                seen = true;
            }
            k = k + 1;
            proof {
                lemma_prefix_step(a.deep_view(), k - 1);
            }
        }
        if !seen {
            proof {
                lemma_index_dom(a.deep_view(), id);
                assert(a.deep_view()[i as int].id == id);
                assert(id_in_prefix(a.deep_view(), a.deep_view().len() as int, id));
                assert(m1.contains_key(id));
            }
            match map2.get(&id) {
                None => {
                    let ghost prev = only_in_first@;
                    proof {
                        assert(!prev.contains(id));
                    }
                    only_in_first.push(id);
                    proof {
                        lemma_push_contains(prev, id);
                        lemma_push_no_dup(prev, id);
                        assert(forall|x: u64| #[trigger]
                            only_in_first@.contains(x) <==> (prev.contains(x) || x == id));
                        lemma_first_pos_at(a.deep_view(), i as int, id);
                        assert forall|p: int, q: int|
                            0 <= p < q < only_in_first@.len() implies first_pos(
                            a.deep_view(),
                            only_in_first@[p],
                        ) < first_pos(a.deep_view(), only_in_first@[q]) by {
                            if q == prev.len() {
                                assert(only_in_first@[p] == prev[p]);
                                assert(only_in_first@[q] == id);
                            }
                        }
                    }
                },
                Some(r2) => {
                    let r1 = match map1.get(&id) {
                        Some(r1) => r1,
                        None => vstd::pervasive::unreached(),
                    };
                    if !(*r1 == *r2) {
                        let ghost prev = differing@;
                        proof {
                            assert(!prev.contains(id));
                        }
                        differing.push(id);
                        proof {
                            lemma_push_contains(prev, id);
                            lemma_push_no_dup(prev, id);
                            assert(forall|x: u64| #[trigger]
                                differing@.contains(x) <==> (prev.contains(x) || x == id));
                            lemma_first_pos_at(a.deep_view(), i as int, id);
                            assert forall|p: int, q: int|
                                0 <= p < q < differing@.len() implies first_pos(
                                a.deep_view(),
                                differing@[p],
                            ) < first_pos(a.deep_view(), differing@[q]) by {
                                if q == prev.len() {
                                    assert(differing@[p] == prev[p]);
                                    assert(differing@[q] == id);
                                }
                            }
                        }
                    }
                },
            }
        }
        proof {
            lemma_prefix_step(a.deep_view(), i as int);
        }
        i = i + 1;
    }
    proof {
        assert forall|id: u64| #[trigger]
            m1.contains_key(id) <==> id_in_prefix(a.deep_view(), n1 as int, id) by {
            lemma_index_dom(a.deep_view(), id);
        }
    }
    let n2 = b.len();
    let mut i: usize = 0;
    while i < n2
        invariant
            0 <= i <= n2,
            n2 == b@.len(),
            m1 == index_by_id(a.deep_view()),
            m2 == index_by_id(b.deep_view()),
            forall|id: u64| #[trigger]
                map1@.contains_key(id) <==> m1.contains_key(id),
            no_duplicates(only_in_second@),
            ordered_by_first_occurrence(only_in_second@, b.deep_view()),
            forall|k: int|
                0 <= k < only_in_second@.len() ==> first_pos(
                    b.deep_view(),
                    #[trigger] only_in_second@[k],
                ) < i,
            forall|id: u64| #[trigger]
                only_in_second@.contains(id) <==> (id_in_prefix(b.deep_view(), i as int, id)
                    && !m1.contains_key(id)),
        decreases n2 - i,
    {
        let id = b[i].id;
        let mut seen = false;
        let mut k: usize = 0;
        while k < i
            invariant
                0 <= k <= i <= n2,
                n2 == b@.len(),
                id == b.deep_view()[i as int].id,
                seen == id_in_prefix(b.deep_view(), k as int, id),
            decreases i - k,
        {
            if b[k].id == id {
                proof {
                    assert(b.deep_view()[k as int].id == id);
                }
                seen = true;
            }
            k = k + 1;
            proof {
                lemma_prefix_step(b.deep_view(), k - 1);
            }
        }
        if !seen {
            if !map1.contains_key(&id) {
                let ghost prev = only_in_second@;
                proof {
                    assert(!prev.contains(id));
                }
                only_in_second.push(id);
                proof {
                    lemma_push_contains(prev, id);
                    lemma_push_no_dup(prev, id);
                    assert(forall|x: u64| #[trigger]
                        only_in_second@.contains(x) <==> (prev.contains(x) || x == id));
                    lemma_first_pos_at(b.deep_view(), i as int, id);
                    assert forall|p: int, q: int|
                        0 <= p < q < only_in_second@.len() implies first_pos(
                        b.deep_view(),
                        only_in_second@[p],
                    ) < first_pos(b.deep_view(), only_in_second@[q]) by {
                        if q == prev.len() {
                            assert(only_in_second@[p] == prev[p]);
                            assert(only_in_second@[q] == id);
                        }
                    }
                }
            }
        }
        proof {
            lemma_prefix_step(b.deep_view(), i as int);
        }
        i = i + 1;
    }
    proof {
        assert forall|id: u64| #[trigger]
            m2.contains_key(id) <==> id_in_prefix(b.deep_view(), n2 as int, id) by {
            lemma_index_dom(b.deep_view(), id);
        }
    }
    DiffReport { only_in_first, only_in_second, differing }
}

/// A fresh element keeps a sequence duplicate-free.
proof fn lemma_push_no_dup(s: Seq<u64>, x: u64)
    requires
        no_duplicates(s),
        !s.contains(x),
    ensures
        no_duplicates(s.push(x)),
{
    assert forall|i: int, j: int| 0 <= i < j < s.push(x).len() implies s.push(x)[i] != s.push(
        x,
    )[j] by {
        if j == s.len() {
            if s[i] == x {
                assert(s.contains(x));
            }
        }
    }
}

/// Membership in a sequence extended by one element.
proof fn lemma_push_contains(s: Seq<u64>, x: u64)
    ensures
        forall|y: u64| #[trigger] s.push(x).contains(y) <==> (s.contains(y) || y == x),
{
    assert forall|y: u64| #[trigger] s.push(x).contains(y) implies (s.contains(y) || y == x) by {
        let k = choose|k: int| 0 <= k < s.push(x).len() && s.push(x)[k] == y;
        if k < s.len() {
            assert(s[k] == y);
        }
    }
    assert forall|y: u64| (s.contains(y) || y == x) implies #[trigger] s.push(x).contains(y) by {
        if s.contains(y) {
            let k = choose|k: int| 0 <= k < s.len() && s[k] == y;
            assert(s.push(x)[k] == y);
        } else {
            assert(s.push(x)[s.len() as int] == y);
        }
    }
}

} // verus!

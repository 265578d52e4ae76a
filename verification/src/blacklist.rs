//! The blacklist: for each group, the members that are on its list, and the
//! text file that keeps it (one `group member` pair per line).
use std::collections::{HashMap, HashSet};
use vstd::prelude::*;
use vstd::std_specs::hash::{spec_hash_keys_iter, spec_hash_map_iter};
use vstd::std_specs::iter::IteratorSpec;

use crate::number::{
    decimal, integer_parse, lemma_decimal_parses, parse_i64, push_decimal, IntErrorKind,
};
use crate::text::{
    chars_of, find_char, find_char_in, lemma_find_char, lemma_lines_from_line,
    lemma_trim_unchanged, line_bounds, lines, trim, trim_bounds,
};

verus! {

broadcast use vstd::std_specs::hash::group_hash_axioms;

/// The file that keeps the blacklist.
pub const PATH: &'static str = ".blacklist";

/// Members on the blacklist, by group.
pub struct BlackList {
    pub inner: HashMap<i64, HashSet<i64>>,
}

/// Why the blacklist file could not be read.
#[derive(Debug, Clone, Copy, PartialEq, Eq, Structural)]
pub enum BlackListError {
    /// A group or a member on some line is not an `i64`.
    InvalidNumber(IntErrorKind),
}

impl View for BlackList {
    type V = Map<i64, Set<i64>>;

    open spec fn view(&self) -> Map<i64, Set<i64>> {
        Map::new(|g: i64| self.inner@.contains_key(g), |g: i64| self.inner@[g]@)
    }
}

/// The (group, member) pairs that a map from groups to members holds.
pub open spec fn pairs_of(m: Map<i64, Set<i64>>) -> Set<(i64, i64)> {
    Set::new(|p: (i64, i64)| m.contains_key(p.0) && m[p.0].contains(p.1))
}

/// `m` with `member` put on the list of `group`.
pub open spec fn with_pair(m: Map<i64, Set<i64>>, group: i64, member: i64) -> Map<i64, Set<i64>> {
    if m.contains_key(group) {
        m.insert(group, m[group].insert(member))
    } else {
        m.insert(group, Set::empty().insert(member))
    }
}

/// `m` with `member` taken off the list of `group` (a group keeps its possibly
/// empty list).
pub open spec fn without_pair(m: Map<i64, Set<i64>>, group: i64, member: i64) -> Map<
    i64,
    Set<i64>,
> {
    if m.contains_key(group) {
        m.insert(group, m[group].remove(member))
    } else {
        m
    }
}

/// The map that adding `records` in order to an empty blacklist gives.
pub open spec fn map_of_records(records: Seq<(i64, i64)>) -> Map<i64, Set<i64>>
    decreases records.len(),
{
    if records.len() == 0 {
        Map::empty()
    } else {
        with_pair(map_of_records(records.drop_last()), records.last().0, records.last().1)
    }
}

/// The line of the file that records `member` on the list of `group`.
pub open spec fn record_line(record: (i64, i64)) -> Seq<char> {
    decimal(record.0 as int) + seq![' '] + decimal(record.1 as int)
}

/// The file text that holds `records`, one per line, each line ended by `'\n'`.
pub open spec fn render_records(records: Seq<(i64, i64)>) -> Seq<char>
    decreases records.len(),
{
    if records.len() == 0 {
        seq![]
    } else {
        record_line(records[0]) + seq!['\n'] + render_records(records.drop_first())
    }
}

/// What reading one line of the file gives: the line is trimmed and cut at its
/// first space; `None` where there is no space (reading stops there without an
/// answer), else the two numbers or the error of the first that is not one.
pub open spec fn record_of_line(line: Seq<char>) -> Option<Result<(i64, i64), IntErrorKind>> {
    let t = trim(line);
    match find_char(t, ' ') {
        None => None,
        Some(k) => match integer_parse(t.take(k as int)) {
            Err(e) => Some(Err(e)),
            Ok(group) => match integer_parse(t.skip(k + 1 as int)) {
                Err(e) => Some(Err(e)),
                Ok(member) => Some(Ok((group, member))),
            },
        },
    }
}

/// What reading the lines `ls` in order gives: the records, or the outcome of the
/// first line that does not hold one.
pub open spec fn records_of_lines(ls: Seq<Seq<char>>) -> Option<
    Result<Seq<(i64, i64)>, IntErrorKind>,
>
    decreases ls.len(),
{
    if ls.len() == 0 {
        Some(Ok(seq![]))
    } else {
        match records_of_lines(ls.drop_last()) {
            None => None,
            Some(Err(e)) => Some(Err(e)),
            Some(Ok(rs)) => match record_of_line(ls.last()) {
                None => None,
                Some(Err(e)) => Some(Err(e)),
                Some(Ok(r)) => Some(Ok(rs.push(r))),
            },
        }
    }
}

/// What reading the file text `content` gives.
pub open spec fn load_records(content: Seq<char>) -> Option<Result<Seq<(i64, i64)>, IntErrorKind>> {
    records_of_lines(lines(content))
}

/// What loading a blacklist from an optional file text gives: an empty list where
/// there is no file; `None` where reading stops without an answer.
pub open spec fn load_outcome(content: Option<Seq<char>>) -> Option<
    Result<Map<i64, Set<i64>>, BlackListError>,
> {
    match content {
        None => Some(Ok(Map::empty())),
        Some(c) => match load_records(c) {
            None => None,
            Some(Err(e)) => Some(Err(BlackListError::InvalidNumber(e))),
            Some(Ok(rs)) => Some(Ok(map_of_records(rs))),
        },
    }
}

/// Whether the records of each group stand together, one after another.
pub open spec fn groups_contiguous(records: Seq<(i64, i64)>) -> bool {
    forall|i: int, j: int, k: int|
        #![trigger records[i], records[j], records[k]]
        0 <= i < j < k < records.len() && records[i].0 == records[k].0 ==> records[j].0
            == records[i].0
}

/// Whether `text` is a file text that holds exactly the pairs of `m`, each once,
/// the members of each group on lines that stand together, in some order.
pub open spec fn renders(m: Map<i64, Set<i64>>, text: Seq<char>) -> bool {
    exists|records: Seq<(i64, i64)>|
        #![trigger render_records(records)]
        records.no_duplicates() && records.to_set() == pairs_of(m) && groups_contiguous(records)
            && text == render_records(records)
}

// ---------------------------------------------------------------------------
// Lemmas
// ---------------------------------------------------------------------------

/// Once some line does not hold a record, the lines after it do not matter.
proof fn lemma_records_prefix_decides(ls: Seq<Seq<char>>, j: int)
    requires
        0 <= j <= ls.len(),
        !(records_of_lines(ls.take(j)) matches Some(Ok(_))),
    ensures
        records_of_lines(ls) == records_of_lines(ls.take(j)),
    decreases ls.len() - j,
{
    if j < ls.len() {
        assert(ls.take(j + 1).drop_last() =~= ls.take(j));
        lemma_records_prefix_decides(ls, j + 1);
    } else {
        assert(ls.take(j) =~= ls);
    }
}

/// Writing one more record appends its line.
proof fn lemma_render_push(records: Seq<(i64, i64)>, r: (i64, i64))
    ensures
        render_records(records.push(r)) == render_records(records) + record_line(r) + seq!['\n'],
    decreases records.len(),
{
    if records.len() == 0 {
        assert(records.push(r).drop_first() =~= Seq::<(i64, i64)>::empty());
        assert(render_records(records.push(r).drop_first()) == Seq::<char>::empty());
        assert(records.push(r)[0] == r);
        assert(render_records(records) == Seq::<char>::empty());
        assert(render_records(records.push(r)) =~= render_records(records) + record_line(r)
            + seq!['\n']);
    } else {
        let a = records.push(r);
        assert(a.drop_first() =~= records.drop_first().push(r));
        assert(a[0] == records[0]);
        lemma_render_push(records.drop_first(), r);
        let head = record_line(records[0]) + seq!['\n'];
        let rest = render_records(records.drop_first());
        assert(render_records(a) == head + render_records(a.drop_first()));
        assert(render_records(a) == head + (rest + record_line(r) + seq!['\n']));
        assert(render_records(records) == head + rest);
        assert(render_records(a) =~= render_records(records) + record_line(r) + seq!['\n']);
    }
}

/// A written line reads back as its record.
proof fn lemma_record_line_reads_back(r: (i64, i64))
    ensures
        record_of_line(record_line(r)) == Some(Ok::<(i64, i64), IntErrorKind>(r)),
        forall|i: int| 0 <= i < record_line(r).len() ==> #[trigger] record_line(r)[i] != '\n',
        record_line(r).len() > 0,
        record_line(r).last() != '\r',
{
    let dg = decimal(r.0 as int);
    let du = decimal(r.1 as int);
    let line = record_line(r);
    lemma_decimal_parses(r.0);
    lemma_decimal_parses(r.1);
    assert(line[0] == dg[0]);
    assert(line.last() == du.last());
    lemma_trim_unchanged(line);
    assert forall|i: int| 0 <= i < dg.len() implies #[trigger] line[i] != ' ' by {
        assert(line[i] == dg[i]);
    }
    assert(line[dg.len() as int] == ' ');
    lemma_find_char(line, ' ', dg.len() as int);
    assert(line.take(dg.len() as int) =~= dg);
    assert(line.skip(dg.len() + 1 as int) =~= du);
    assert forall|i: int| 0 <= i < line.len() implies #[trigger] line[i] != '\n' by {
        if i < dg.len() {
            assert(line[i] == dg[i]);
        } else if i > dg.len() {
            assert(line[i] == du[i - dg.len() - 1]);
        }
    }
}

/// The lines of a written file are the lines of its records.
proof fn lemma_lines_of_render(records: Seq<(i64, i64)>)
    ensures
        lines(render_records(records)) == records.map_values(|r: (i64, i64)| record_line(r)),
    decreases records.len(),
{
    if records.len() == 0 {
        assert(lines(render_records(records)) =~= records.map_values(
            |r: (i64, i64)| record_line(r),
        ));
    } else {
        let line = record_line(records[0]);
        lemma_record_line_reads_back(records[0]);
        lemma_lines_from_line(line, render_records(records.drop_first()), seq![]);
        lemma_lines_of_render(records.drop_first());
        assert(Seq::<char>::empty() + line =~= line);
        assert(lines(render_records(records)) =~= records.map_values(
            |r: (i64, i64)| record_line(r),
        ));
    }
}

/// Reading the lines of some records gives the records back.
proof fn lemma_records_read_back(records: Seq<(i64, i64)>)
    ensures
        records_of_lines(records.map_values(|r: (i64, i64)| record_line(r))) == Some(
            Ok::<Seq<(i64, i64)>, IntErrorKind>(records),
        ),
    decreases records.len(),
{
    let ls = records.map_values(|r: (i64, i64)| record_line(r));
    if records.len() > 0 {
        assert(ls.drop_last() =~= records.drop_last().map_values(|r: (i64, i64)| record_line(r)));
        lemma_records_read_back(records.drop_last());
        lemma_record_line_reads_back(records.last());
        assert(ls.last() == record_line(records.last()));
        assert(records.drop_last().push(records.last()) =~= records);
    } else {
        assert(records =~= Seq::<(i64, i64)>::empty());
        assert(ls.len() == 0);
    }
}

/// The groups of the map built from `records` are the groups the records name.
pub proof fn lemma_map_of_records_groups(records: Seq<(i64, i64)>)
    ensures
        forall|g: i64|
            #![trigger map_of_records(records).dom().contains(g)]
            map_of_records(records).dom().contains(g) <==> exists|i: int|
                0 <= i < records.len() && (#[trigger] records[i]).0 == g,
    decreases records.len(),
{
    if records.len() > 0 {
        let rest = records.drop_last();
        lemma_map_of_records_groups(rest);
        assert forall|g: i64|
            #![trigger map_of_records(records).dom().contains(g)]
            map_of_records(records).dom().contains(g) <==> exists|i: int|
                0 <= i < records.len() && (#[trigger] records[i]).0 == g by {
            if map_of_records(records).dom().contains(g) {
                if g == records.last().0 {
                    assert(records[records.len() - 1].0 == g);
                } else {
                    assert(map_of_records(rest).dom().contains(g));
                    let i = choose|i: int| 0 <= i < rest.len() && (#[trigger] rest[i]).0 == g;
                    assert(records[i] == rest[i]);
                }
            }
            if exists|i: int| 0 <= i < records.len() && (#[trigger] records[i]).0 == g {
                let i = choose|i: int| 0 <= i < records.len() && (#[trigger] records[i]).0 == g;
                if i < rest.len() {
                    assert(rest[i] == records[i]);
                    assert(map_of_records(rest).dom().contains(g));
                }
            }
        }
    }
}

/// Reading back what `rewrite` writes gives a blacklist with the same pairs, whose
/// groups are exactly the groups of `m` with at least one member, each with the
/// same members.
pub proof fn lemma_rewrite_reloads(m: Map<i64, Set<i64>>, text: Seq<char>)
    requires
        renders(m, text),
    ensures
        load_outcome(Some(text)) matches Some(Ok(m2)) && pairs_of(m2) == pairs_of(m) && (forall|
            g: i64,
        |
            #![trigger m2.dom().contains(g)]
            m2.dom().contains(g) <==> (m.contains_key(g) && exists|u: i64| m[g].contains(u)))
            && (forall|g: i64| #![trigger m2[g]] m2.dom().contains(g) ==> m2[g] == m[g]),
{
    let records = choose|records: Seq<(i64, i64)>|
        #![trigger render_records(records)]
        records.no_duplicates() && records.to_set() == pairs_of(m) && groups_contiguous(records)
            && text == render_records(records);
    lemma_lines_of_render(records);
    lemma_records_read_back(records);
    lemma_map_of_records(records);
    lemma_map_of_records_groups(records);
    let m2 = map_of_records(records);
    assert forall|g: i64|
        #![trigger m2.dom().contains(g)]
        m2.dom().contains(g) <==> (m.contains_key(g) && exists|u: i64| m[g].contains(u)) by {
        if m2.dom().contains(g) {
            let i = choose|i: int| 0 <= i < records.len() && (#[trigger] records[i]).0 == g;
            assert(records.to_set().contains(records[i]));
            assert(pairs_of(m).contains(records[i]));
            assert(m[g].contains(records[i].1));
        }
        if m.contains_key(g) && exists|u: i64| m[g].contains(u) {
            let u = choose|u: i64| m[g].contains(u);
            assert(pairs_of(m).contains((g, u)));
            assert(records.to_set().contains((g, u)));
            let i = choose|i: int| 0 <= i < records.len() && records[i] == (g, u);
            assert(records[i].0 == g);
        }
    }
    assert forall|g: i64| #![trigger m2[g]] m2.dom().contains(g) implies m2[g] == m[g] by {
        assert(m2.dom().contains(g));
        assert(m.contains_key(g));
        assert forall|u: i64| m2[g].contains(u) <==> m[g].contains(u) by {
            if m2[g].contains(u) {
                assert(pairs_of(m2).contains((g, u)));
            }
            if m[g].contains(u) {
                assert(pairs_of(m).contains((g, u)));
            }
        }
        assert(m2[g] =~= m[g]);
    }
}

/// Adding a pair to the map adds it to the pairs.
pub proof fn lemma_with_pair(m: Map<i64, Set<i64>>, group: i64, member: i64)
    ensures
        pairs_of(with_pair(m, group, member)) == pairs_of(m).insert((group, member)),
{
    assert(pairs_of(with_pair(m, group, member)) =~= pairs_of(m).insert((group, member)));
}

/// Taking a pair off the map takes it off the pairs.
pub proof fn lemma_without_pair(m: Map<i64, Set<i64>>, group: i64, member: i64)
    ensures
        pairs_of(without_pair(m, group, member)) == pairs_of(m).remove((group, member)),
{
    assert(pairs_of(without_pair(m, group, member)) =~= pairs_of(m).remove((group, member)));
}

/// The pairs of the map built from `records` are the records.
pub proof fn lemma_map_of_records(records: Seq<(i64, i64)>)
    ensures
        pairs_of(map_of_records(records)) == records.to_set(),
    decreases records.len(),
{
    if records.len() == 0 {
        assert(pairs_of(map_of_records(records)) =~= records.to_set());
    } else {
        let r = records.last();
        lemma_map_of_records(records.drop_last());
        lemma_with_pair(map_of_records(records.drop_last()), r.0, r.1);
        assert(records =~= records.drop_last().push(r));
        records.drop_last().lemma_push_to_set_commute(r);
    }
}

// ---------------------------------------------------------------------------
// Executable functions
// ---------------------------------------------------------------------------

impl BlackList {
    /// The (group, member) pairs on the blacklist.
    pub open spec fn pairs(&self) -> Set<(i64, i64)> {
        pairs_of(self@)
    }

    /// An empty blacklist.
    fn empty() -> (b: BlackList)
        ensures
            b@ == Map::<i64, Set<i64>>::empty(),
    {
        let b = BlackList { inner: HashMap::new() };
        assert(b@ =~= Map::<i64, Set<i64>>::empty());
        b
    }

    /// The file text that holds the blacklist: one `group member` line for each
    /// pair, in the order in which the map and its sets are walked.
    pub fn rewrite(&self) -> (text: String)
        ensures
            renders(self@, text@),
    {
        let mut out: Vec<char> = Vec::new();
        let ghost mut records: Seq<(i64, i64)> = seq![];
        let ghost mut done: Set<i64> = Set::empty();
        let ghost m = self@;
        let ghost kvs = spec_hash_map_iter(&self.inner).remaining();
        assert(pairs_of(m.restrict(done)) =~= records.to_set());
        for (g, members) in it: self.inner.iter()
            invariant
                kvs == spec_hash_map_iter(&self.inner).remaining(),
                m == self@,
                it.seq() == spec_hash_map_iter(&self.inner).remaining(),
                it.seq().no_duplicates(),
                out@ == render_records(records),
                records.no_duplicates(),
                records.to_set() == pairs_of(m.restrict(done)),
                groups_contiguous(records),
                forall|i: int| 0 <= i < records.len() ==> done.contains(#[trigger] records[i].0),
                done == Set::new(
                    |k: i64| exists|j: int| 0 <= j < it.index() && *(#[trigger] it.seq()[j]).0 == k,
                ),
            ensures
                out@ == render_records(records),
                records.no_duplicates(),
                records.to_set() == pairs_of(m.restrict(done)),
                groups_contiguous(records),
                done == Set::new(
                    |k: i64| exists|j: int| 0 <= j < kvs.len() && *(#[trigger] kvs[j]).0 == k,
                ),
        {
            let ghost idx = it.index();
            let ghost key = *g;
            let ghost before = records.to_set();
            let ghost done_before = done;
            proof {
                assert(it.seq()[idx] == (g, members));
                assert(self.inner@.contains_key(key) && self.inner@[key] == *members);
                assert(!done.contains(key)) by {
                    if done.contains(key) {
                        let j = choose|j: int| 0 <= j < idx && *(#[trigger] it.seq()[j]).0 == key;
                        assert(self.inner@[*it.seq()[j].0] == *it.seq()[j].1);
                        assert(it.seq()[j] == it.seq()[idx]);
                    }
                }
            }
            assert(before.union(Set::new(|p: (i64, i64)| p.0 == key && exists|j: int| 0 <= j < 0 && *(#[trigger] spec_hash_keys_iter(members).remaining()[j]) == p.1)) =~= before);
            let ghost elems = spec_hash_keys_iter(members).remaining();
            let ghost start = records.len();
            for u in it2: members.iter()
                invariant
                    elems == spec_hash_keys_iter(members).remaining(),
                    key == *g,
                    !done.contains(key),
                    start <= records.len(),
                    groups_contiguous(records),
                    forall|i: int| 0 <= i < start ==> done.contains(#[trigger] records[i].0),
                    forall|i: int| start <= i < records.len() ==> #[trigger] records[i].0 == key,
                    before == pairs_of(m.restrict(done)),
                    it2.seq() == spec_hash_keys_iter(members).remaining(),
                    it2.seq().no_duplicates(),
                    out@ == render_records(records),
                    records.no_duplicates(),
                    records.to_set() == before.union(
                        Set::new(
                            |p: (i64, i64)|
                                p.0 == key && exists|j: int|
                                    0 <= j < it2.index() && *(#[trigger] it2.seq()[j]) == p.1,
                        ),
                    ),
                ensures
                    out@ == render_records(records),
                    records.no_duplicates(),
                    start <= records.len(),
                    groups_contiguous(records),
                    forall|i: int| 0 <= i < start ==> done.contains(#[trigger] records[i].0),
                    forall|i: int| start <= i < records.len() ==> #[trigger] records[i].0 == key,
                    records.to_set() == before.union(
                        Set::new(
                            |p: (i64, i64)|
                                p.0 == key && exists|j: int|
                                    0 <= j < elems.len() && *(#[trigger] elems[j]) == p.1,
                        ),
                    ),
            {
                let ghost idx2 = it2.index();
                push_decimal(&mut out, *g);
                out.push(' ');
                push_decimal(&mut out, *u);
                out.push('\n');
                proof {
                    assert(it2.seq()[idx2] == u);
                    assert(!records.contains((key, *u))) by {
                        if records.contains((key, *u)) {
                            assert(records.to_set().contains((key, *u)));
                            if !before.contains((key, *u)) {
                                let j = choose|j: int| 0 <= j < idx2 && *(#[trigger] it2.seq()[j]) == *u;
                                assert(it2.seq()[j] == it2.seq()[idx2]);
                            }
                        }
                    }
                    lemma_render_push(records, (*g, *u));
                    assert(out@ =~= render_records(records) + record_line((*g, *u)) + seq!['\n']);
                    records.lemma_push_to_set_commute((*g, *u));
                    let ghost prev = records;
                    records = records.push((*g, *u));
                    assert(groups_contiguous(records)) by {
                        assert forall|i: int, j: int, k: int|
                            #![trigger records[i], records[j], records[k]]
                            0 <= i < j < k < records.len() && records[i].0 == records[k].0
                                implies records[j].0 == records[i].0 by {
                            if k < prev.len() {
                                assert(prev[i] == records[i] && prev[j] == records[j] && prev[k]
                                    == records[k]);
                            } else {
                                assert(records[i] == prev[i]);
                                if i < start {
                                    assert(done.contains(prev[i].0));
                                }
                                assert(records[j] == prev[j]);
                            }
                        }
                    }
                    assert forall|i: int| start <= i < records.len() implies #[trigger] records[i].0
                        == key by {
                        if i < prev.len() {
                            assert(records[i] == prev[i]);
                        }
                    }
                    assert forall|i: int| 0 <= i < start implies done.contains(
                        #[trigger] records[i].0,
                    ) by {
                        assert(records[i] == prev[i]);
                    }
                    assert(records.to_set() =~= before.union(
                        Set::new(
                            |p: (i64, i64)|
                                p.0 == key && exists|j: int|
                                    0 <= j < idx2 + 1 && *(#[trigger] it2.seq()[j]) == p.1,
                        ),
                    )) by {
                        assert forall|p: (i64, i64)| records.to_set().contains(p) implies before.union(
                        Set::new(
                            |p: (i64, i64)|
                                p.0 == key && exists|j: int|
                                    0 <= j < idx2 + 1 && *(#[trigger] it2.seq()[j]) == p.1,
                        ),
                    ).contains(p) by {
                            if p == (key, *u) {
                                assert(*it2.seq()[idx2] == p.1);
                            }
                        }
                    }
                }
            }
            proof {
                assert(spec_hash_keys_iter(members).remaining().unref().to_set() == members@);
                done = done.insert(key);
                assert forall|i: int| 0 <= i < records.len() implies done.contains(
                    #[trigger] records[i].0,
                ) by {
                    if i >= start {
                        assert(records[i].0 == key);
                    }
                }
                assert(records.to_set() =~= pairs_of(m.restrict(done))) by {
                    assert forall|p: (i64, i64)| #[trigger] records.to_set().contains(p) implies pairs_of(m.restrict(done)).contains(p) by {
                        if !before.contains(p) {
                            let j = choose|j: int| 0 <= j < elems.len() && *(#[trigger] elems[j]) == p.1;
                            assert(elems.unref()[j] == p.1);
                        }
                    }
                    assert forall|p: (i64, i64)| #[trigger] pairs_of(m.restrict(done)).contains(p) implies records.to_set().contains(p) by {
                        if p.0 == key {
                            assert(members@.contains(p.1));
                            assert(elems.unref().to_set().contains(p.1));
                            let j = choose|j: int| 0 <= j < elems.len() && elems.unref()[j] == p.1;
                            assert(*elems[j] == p.1);
                        }
                    }
                }
                assert(done =~= Set::new(
                    |k: i64| exists|j: int| 0 <= j < idx + 1 && *(#[trigger] it.seq()[j]).0 == k,
                )) by {
                    assert forall|k: i64| done.contains(k) implies exists|j: int| 0 <= j < idx + 1 && *(#[trigger] it.seq()[j]).0 == k by {
                        if k == key {
                            assert(*it.seq()[idx].0 == k);
                        }
                    }
                }
            }
        }
        let text = crate::text::string_from_chars(&out);
        proof {
            assert(m.restrict(done) =~= m) by {
                assert forall|k: i64| m.contains_key(k) implies done.contains(k) by {
                    assert(self.inner@.contains_key(k));
                    assert(kvs.contains((&k, &self.inner@[k])));
                    let j = choose|j: int| 0 <= j < kvs.len() && kvs[j] == (&k, &self.inner@[k]);
                    assert(*kvs[j].0 == k);
                }
            }
            assert(records.to_set() == pairs_of(self@));
        }
        text
    }

    /// Reads the blacklist from the text of its file, `None` standing for a file
    /// that does not exist yet. Gives `None` where a line, trimmed, holds no space
    /// and no earlier line has failed: reading has no answer there.
    pub fn load(content: Option<&str>) -> (r: Option<Result<BlackList, BlackListError>>)
        ensures
            match load_outcome(
                match content {
                    Some(c) => Some(c@),
                    None => None,
                },
            ) {
                None => r is None,
                Some(Err(e)) => r == Some(Err::<BlackList, BlackListError>(e)),
                Some(Ok(m)) => r matches Some(Ok(b)) && b@ == m,
            },
    {
        let text = match content {
            None => {
                return Some(Ok(BlackList::empty()));
            },
            Some(t) => t,
        };
        let v = chars_of(text);
        let ls = line_bounds(&v, 0, v.len());
        let ghost all = lines(v@);
        assert(v@.subrange(0, v@.len() as int) =~= v@);
        let mut b = BlackList::empty();
        let ghost mut records: Seq<(i64, i64)> = seq![];
        let mut i: usize = 0;
        assert(all.take(0) =~= Seq::<Seq<char>>::empty());
        while i < ls.len()
            invariant
                0 <= i <= ls@.len(),
                content == Some(text),
                v@ == text@,
                all == lines(v@),
                ls@.len() == all.len(),
                forall|j: int|
                    0 <= j < ls@.len() ==> 0 <= (#[trigger] ls@[j]).0 <= ls@[j].1 <= v@.len()
                        && v@.subrange(ls@[j].0 as int, ls@[j].1 as int) == all[j],
                records_of_lines(all.take(i as int)) == Some(
                    Ok::<Seq<(i64, i64)>, IntErrorKind>(records),
                ),
                b@ == map_of_records(records),
            decreases ls@.len() - i,
        {
            let (a, e) = ls[i];
            let ghost line = all[i as int];
            assert(all.take(i + 1).drop_last() =~= all.take(i as int));
            assert(all.take(i + 1).last() == line);
            let (ta, te) = trim_bounds(&v, a, e);
            let ghost t = trim(line);
            assert(v@.subrange(ta as int, te as int) == t);
            match find_char_in(&v, ta, te, ' ') {
                None => {
                    proof {
                        lemma_records_prefix_decides(all, i + 1);
                    }
                    return None;
                },
                Some(k) => {
                    let ghost kk = (k - ta) as nat;
                    assert(t.take(kk as int) =~= v@.subrange(ta as int, k as int));
                    assert(t.skip(kk + 1 as int) =~= v@.subrange(k + 1, te as int));
                    match parse_i64(&v, ta, k) {
                        Err(err) => {
                            proof {
                                lemma_records_prefix_decides(all, i + 1);
                            }
                            return Some(Err(BlackListError::InvalidNumber(err)));
                        },
                        Ok(group) => match parse_i64(&v, k + 1, te) {
                            Err(err) => {
                                proof {
                                    lemma_records_prefix_decides(all, i + 1);
                                }
                                return Some(Err(BlackListError::InvalidNumber(err)));
                            },
                            Ok(member) => {
                                let _ = b.add(group, member);
                                proof {
                                    let old_records = records;
                                    records = records.push((group, member));
                                    assert(records.drop_last() =~= old_records);
                                }
                            },
                        },
                    }
                },
            }
            i = i + 1;
        }
        assert(all.take(ls@.len() as int) =~= all);
        Some(Ok(b))
    }

    /// Reads the blacklist from the text of its file, `None` standing for a file
    /// that does not exist yet; a group or member that is not a number is an error.
    pub fn new(content: Option<&str>) -> (r: Result<BlackList, BlackListError>)
        requires
            load_outcome(
                match content {
                    Some(c) => Some(c@),
                    None => None,
                },
            ) is Some,
        ensures
            match load_outcome(
                match content {
                    Some(c) => Some(c@),
                    None => None,
                },
            ) {
                Some(Err(e)) => r == Err::<BlackList, BlackListError>(e),
                Some(Ok(m)) => r matches Ok(b) && b@ == m,
                None => false,
            },
    {
        match BlackList::load(content) {
            Some(r) => r,
            None => {
                assert(false);
                Err(BlackListError::InvalidNumber(IntErrorKind::Empty))
            },
        }
    }

    /// Puts `uin` on the list of `group`.
    pub fn add(&mut self, group: i64, uin: i64) -> (r: Result<(), BlackListError>)
        ensures
            r is Ok,
            final(self)@ == with_pair(old(self)@, group, uin),
            final(self).pairs() == old(self).pairs().insert((group, uin)),
    {
        if self.inner.contains_key(&group) {
            let mut members = self.inner.remove(&group).unwrap();
            members.insert(uin);
            self.inner.insert(group, members);
        } else {
            let mut members = HashSet::new();
            members.insert(uin);
            self.inner.insert(group, members);
        }
        proof {
            assert(final(self)@ =~= with_pair(old(self)@, group, uin));
            lemma_with_pair(old(self)@, group, uin);
        }
        Ok(())
    }

    /// Whether `uin` is on the list of `group`.
    pub fn contains(&self, group: i64, uin: i64) -> (b: bool)
        ensures
            b == self.pairs().contains((group, uin)),
    {
        match self.inner.get(&group) {
            Some(members) => members.contains(&uin),
            None => false,
        }
    }

    /// Takes `uin` off the list of `group`.
    pub fn remove(&mut self, group: i64, uin: i64)
        ensures
            final(self)@ == without_pair(old(self)@, group, uin),
            final(self).pairs() == old(self).pairs().remove((group, uin)),
    {
        if self.inner.contains_key(&group) {
            let mut members = self.inner.remove(&group).unwrap();
            members.remove(&uin);
            self.inner.insert(group, members);
        }
        proof {
            assert(final(self)@ =~= without_pair(old(self)@, group, uin));
            lemma_without_pair(old(self)@, group, uin);
        }
    }
}

} // verus!

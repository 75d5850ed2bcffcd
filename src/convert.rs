use crate::hierarchy::{client_at, project_at, task_at, TimeOwnersHierarchy};
use crate::jiffy::{entry_duration, Status, TimeEntry, TimeOwner};
use crate::text::{date_text, duration_text, format_date, format_duration, format_time, time_text};
use crate::toggl::{Row, RowView};
use crate::zone::{zoned, CivilDateTime, ZoneError};
use itertools::Itertools;
use vstd::prelude::*;
use vstd::set_lib::{lemma_int_range, lemma_subset_equality, set_int_range};

verus! {

/// Why an entry produced no row.
#[derive(Clone, Copy, Debug, PartialEq, Eq, Structural)]
pub enum SkipReason {
    Deleted,
    InvalidStart(ZoneError),
    NeverStopped,
}

/// An entry, by its position in the input, that produced no row.
#[derive(Clone, Copy, Debug, PartialEq, Eq, Structural)]
pub struct Skipped {
    pub entry: usize,
    pub reason: SkipReason,
}

/// The rows of a run, and the entries left out.
pub struct Conversion {
    pub rows: Vec<Row>,
    pub skipped: Vec<Skipped>,
}

pub open spec fn name_at(owners: Seq<TimeOwner>, at: Option<int>) -> Option<Seq<char>> {
    match at {
        Some(i) => Some(owners[i].name@),
        None => None,
    }
}

/// The row of an entry that starts at the civil time `start` and lasts `ms`.
pub open spec fn entry_row(
    owners: Seq<TimeOwner>,
    e: TimeEntry,
    email: Seq<char>,
    start: CivilDateTime,
    ms: int,
) -> RowView {
    RowView {
        user: email,
        email: email,
        client: name_at(owners, client_at(owners, e.owner_id@)),
        project: name_at(owners, project_at(owners, e.owner_id@)),
        description: match name_at(owners, task_at(owners, e.owner_id@)) {
            Some(n) => n,
            None => Seq::empty(),
        },
        start_date: date_text(start),
        start_time: time_text(start),
        duration: duration_text(ms),
    }
}

/// The row of an entry, or why it has none.
pub open spec fn outcome(owners: Seq<TimeOwner>, e: TimeEntry, email: Seq<char>) -> Result<
    RowView,
    SkipReason,
> {
    if e.status == Status::Deleted {
        Err(SkipReason::Deleted)
    } else {
        match zoned(e.start_time as int, e.start_time_zone@) {
            Err(z) => Err(SkipReason::InvalidStart(z)),
            Ok(c) => match entry_duration(e) {
                None => Err(SkipReason::NeverStopped),
                Some(ms) => Ok(entry_row(owners, e, email, c, ms)),
            },
        }
    }
}

/// Entry `a` comes before entry `b`: it started later, or at the same time
/// and earlier in the input.
pub open spec fn before(starts: Seq<i64>, a: int, b: int) -> bool {
    starts[a] > starts[b] || (starts[a] == starts[b] && a < b)
}

/// `ord` lists every position of `starts` once, most recent first, ties in
/// input order.
pub open spec fn is_recency_order(starts: Seq<i64>, ord: Seq<usize>) -> bool {
    &&& ord.len() == starts.len()
    &&& forall|i: int| 0 <= i < ord.len() ==> (#[trigger] ord[i] as int) < starts.len()
    &&& forall|i: int, j: int|
        0 <= i < j < ord.len() ==> before(starts, #[trigger] ord[i] as int, #[trigger] ord[j] as int)
}

pub open spec fn start_times(entries: Seq<TimeEntry>) -> Seq<i64> {
    entries.map_values(|e: TimeEntry| e.start_time)
}

/// The outcomes of the entries, taken in the order `ord`.
pub open spec fn outcomes(
    owners: Seq<TimeOwner>,
    entries: Seq<TimeEntry>,
    email: Seq<char>,
    ord: Seq<usize>,
) -> Seq<Result<RowView, SkipReason>> {
    Seq::new(ord.len(), |i: int| outcome(owners, entries[ord[i] as int], email))
}

/// The rows among the outcomes, in order.
pub open spec fn kept(s: Seq<Result<RowView, SkipReason>>) -> Seq<RowView>
    decreases s.len(),
{
    if s.len() == 0 {
        Seq::empty()
    } else {
        let p = kept(s.drop_last());
        match s.last() {
            Ok(r) => p.push(r),
            Err(_) => p,
        }
    }
}

/// The positions of the outcomes that are rows, in order.
pub open spec fn kept_positions(s: Seq<Result<RowView, SkipReason>>) -> Seq<int>
    decreases s.len(),
{
    if s.len() == 0 {
        Seq::empty()
    } else {
        let p = kept_positions(s.drop_last());
        match s.last() {
            Ok(_) => p.push(s.len() - 1),
            Err(_) => p,
        }
    }
}

/// The entries (by `ord`) that produced no row, with the reason, in order.
pub open spec fn dropped(ord: Seq<usize>, s: Seq<Result<RowView, SkipReason>>) -> Seq<Skipped>
    decreases s.len(),
{
    if s.len() == 0 {
        Seq::empty()
    } else {
        let p = dropped(ord.drop_last(), s.drop_last());
        match s.last() {
            Ok(_) => p,
            Err(reason) => p.push(Skipped { entry: ord.last(), reason }),
        }
    }
}

pub open spec fn min(a: int, b: int) -> int {
    if a < b { a } else { b }
}

/// What is left of `s` after skipping `skip` items and keeping at most `take`.
pub open spec fn page<T>(s: Seq<T>, skip: int, take: int) -> Seq<T> {
    s.subrange(min(skip, s.len() as int), min(skip + take, s.len() as int))
}

pub open spec fn row_views(rows: Seq<Row>) -> Seq<RowView> {
    rows.map_values(|r: Row| r@)
}

/// The entries' positions, latest start first, ties in input order.
pub open spec fn recency_order(entries: Seq<TimeEntry>) -> Seq<usize> {
    choose|ord: Seq<usize>| is_recency_order(start_times(entries), ord)
}

/// The outcomes of the entries, latest start first.
pub open spec fn ranked_outcomes(
    owners: Seq<TimeOwner>,
    entries: Seq<TimeEntry>,
    email: Seq<char>,
) -> Seq<Result<RowView, SkipReason>> {
    outcomes(owners, entries, email, recency_order(entries))
}

/// The rows of a run: the surviving rows, latest start first, after
/// skipping `skip` and keeping at most `take`.
pub open spec fn rows_of(
    owners: Seq<TimeOwner>,
    entries: Seq<TimeEntry>,
    email: Seq<char>,
    skip: int,
    take: int,
) -> Seq<RowView> {
    page(kept(ranked_outcomes(owners, entries, email)), skip, take)
}

/// The entries of a run that produced no row, latest start first.
pub open spec fn skipped_of(owners: Seq<TimeOwner>, entries: Seq<TimeEntry>, email: Seq<char>) -> Seq<
    Skipped,
> {
    dropped(recency_order(entries), ranked_outcomes(owners, entries, email))
}

/// `ord` lists every position of `keys` once, smallest key first, equal
/// keys in input order.
pub open spec fn is_stable_ascending(keys: Seq<i128>, ord: Seq<usize>) -> bool {
    &&& ord.len() == keys.len()
    &&& forall|i: int| 0 <= i < ord.len() ==> (#[trigger] ord[i] as int) < keys.len()
    &&& forall|i: int, j: int|
        0 <= i < j < ord.len() ==> keys[#[trigger] ord[i] as int] < keys[#[trigger] ord[j] as int] || (
        keys[ord[i] as int] == keys[ord[j] as int] && ord[i] < ord[j])
}

/// Relies on `itertools::Itertools::sorted_by_key`, a stable sort: the
/// positions of `keys`, ordered by key.
#[verifier::external_body]
fn stable_order(keys: &Vec<i128>) -> (r: Vec<usize>)
    ensures
        is_stable_ascending(keys@, r@),
{
    keys.iter().copied().enumerate().sorted_by_key(|p| p.1).map(|p| p.0).collect()
}

fn name_of(h: &TimeOwnersHierarchy, at: Option<usize>) -> (r: Option<String>)
    requires
        at matches Some(i) ==> i < h@.len(),
    ensures
        crate::toggl::opt_text(r) == name_at(h@, crate::hierarchy::opt_int(at)),
{
    match at {
        Some(i) => Some(h.owner(i).name.clone()),
        None => None,
    }
}

/// The row of entry `e`, given its start as a civil time and its duration in ms.
pub fn build_row(
    h: &TimeOwnersHierarchy,
    e: &TimeEntry,
    email: &str,
    start: &CivilDateTime,
    ms: i128,
) -> (r: Row)
    requires
        h.wf(),
    ensures
        r@ == entry_row(h@, *e, email@, *start, ms as int),
{
    let loc = h.location(e);
    let description = match name_of(h, loc.task) {
        Some(n) => n,
        None => String::new(),
    };
    Row {
        user: email.to_owned(),
        email: email.to_owned(),
        client: name_of(h, loc.client),
        project: name_of(h, loc.project),
        description,
        start_date: format_date(start),
        start_time: format_time(start),
        duration: format_duration(ms),
    }
}

/// The row of entry `e`, or why it has none: deleted entries, entries whose
/// start cannot be placed in its zone, and entries never stopped have none.
pub fn entry_outcome(h: &TimeOwnersHierarchy, e: &TimeEntry, email: &str) -> (r: Result<Row, SkipReason>)
    requires
        h.wf(),
    ensures
        r matches Ok(row) ==> outcome(h@, *e, email@) == Ok::<RowView, SkipReason>(row@),
        r matches Err(reason) ==> outcome(h@, *e, email@) == Err::<RowView, SkipReason>(reason),
{
    if e.status == Status::Deleted {
        return Err(SkipReason::Deleted);
    }
    let start = match e.start() {
        Ok(c) => c,
        Err(z) => {
            return Err(SkipReason::InvalidStart(z));
        },
    };
    match e.duration() {
        None => Err(SkipReason::NeverStopped),
        Some(ms) => Ok(build_row(h, e, email, &start, ms)),
    }
}

proof fn lemma_page_push<T>(s: Seq<T>, x: T, skip: int, take: int)
    requires
        skip >= 0,
        take >= 0,
    ensures
        page(s.push(x), skip, take) == if skip <= s.len() < skip + take {
            page(s, skip, take).push(x)
        } else {
            page(s, skip, take)
        },
{
    if skip <= s.len() < skip + take {
        assert(page(s.push(x), skip, take) =~= page(s, skip, take).push(x));
    } else {
        assert(page(s.push(x), skip, take) =~= page(s, skip, take));
    }
}

/// Turns the entries into rows: latest start first, entries without a row
/// left out (and reported), then `skip` rows skipped and at most `take` kept.
pub fn transform(
    h: &TimeOwnersHierarchy,
    entries: &Vec<TimeEntry>,
    email: &str,
    skip: usize,
    take: usize,
) -> (r: Conversion)
    requires
        h.wf(),
    ensures
        row_views(r.rows@) == rows_of(h@, entries@, email@, skip as int, take as int),
        r.skipped@ == skipped_of(h@, entries@, email@),
{
    let ghost starts = start_times(entries@);
    let mut keys: Vec<i128> = Vec::new();
    let mut i: usize = 0;
    while i < entries.len()
        invariant
            i <= entries@.len(),
            starts == start_times(entries@),
            keys@.len() == i,
            forall|j: int| 0 <= j < i ==> #[trigger] keys@[j] == -(starts[j] as int),
        decreases entries@.len() - i,
    {
        keys.push(-(entries[i].start_time as i128));
        i = i + 1;
    }
    let ord = stable_order(&keys);
    assert(is_recency_order(starts, ord@)) by {
        assert forall|i: int, j: int| 0 <= i < j < ord@.len() implies before(
            starts,
            #[trigger] ord@[i] as int,
            #[trigger] ord@[j] as int,
        ) by {
            assert(keys@[ord@[i] as int] == -(starts[ord@[i] as int] as int));
            assert(keys@[ord@[j] as int] == -(starts[ord@[j] as int] as int));
        }
    }
    let ghost outs = outcomes(h@, entries@, email@, ord@);
    let mut rows: Vec<Row> = Vec::new();
    let mut skipped: Vec<Skipped> = Vec::new();
    let mut seen: usize = 0;
    let mut k: usize = 0;
    while k < ord.len()
        invariant
            h.wf(),
            k <= ord@.len(),
            is_recency_order(start_times(entries@), ord@),
            outs == outcomes(h@, entries@, email@, ord@),
            seen as int == kept(outs.take(k as int)).len(),
            row_views(rows@) == page(kept(outs.take(k as int)), skip as int, take as int),
            skipped@ == dropped(ord@.take(k as int), outs.take(k as int)),
        decreases ord@.len() - k,
    {
        let ghost pre = outs.take(k as int);
        assert(outs.take(k as int + 1).drop_last() =~= pre);
        assert(ord@.take(k as int + 1).drop_last() =~= ord@.take(k as int));
        let at = ord[k];
        match entry_outcome(h, &entries[at], email) {
            Ok(row) => {
                proof {
                    lemma_page_push(kept(pre), row@, skip as int, take as int);
                }
                if seen >= skip && seen - skip < take {
                    rows.push(row);
                    assert(row_views(rows@) =~= row_views(rows@.drop_last()).push(row@));
                }
                assert(seen < ord@.len()) by {
                    lemma_kept_len(pre);
                }
                seen = seen + 1;
            },
            Err(reason) => {
                skipped.push(Skipped { entry: at, reason });
            },
        }
        k = k + 1;
    }
    assert(outs.take(ord@.len() as int) =~= outs);
    assert(ord@.take(ord@.len() as int) =~= ord@);
    proof {
        lemma_recency_order_unique(starts, ord@, recency_order(entries@));
    }
    Conversion { rows, skipped }
}

proof fn lemma_kept_len(s: Seq<Result<RowView, SkipReason>>)
    ensures
        kept(s).len() <= s.len(),
    decreases s.len(),
{
    if s.len() > 0 {
        lemma_kept_len(s.drop_last());
    }
}

proof fn lemma_kept_follow_order(starts: Seq<i64>, ord: Seq<usize>, s: Seq<Result<RowView, SkipReason>>)
    requires
        is_recency_order(starts, ord),
        s.len() == ord.len(),
    ensures
        kept_positions(s).len() == kept(s).len(),
        forall|i: int|
            0 <= i < kept(s).len() ==> 0 <= #[trigger] kept_positions(s)[i] < s.len() && s[kept_positions(s)[i]]
                == Ok::<RowView, SkipReason>(kept(s)[i]),
        forall|i: int, j: int|
            0 <= i < j < kept(s).len() ==> #[trigger] kept_positions(s)[i] < #[trigger] kept_positions(s)[j]
                && before(starts, ord[kept_positions(s)[i]] as int, ord[kept_positions(s)[j]] as int),
{
    lemma_kept_positions(s);
    assert forall|i: int, j: int|
        0 <= i < j < kept(s).len() implies #[trigger] kept_positions(s)[i] < #[trigger] kept_positions(s)[j]
            && before(starts, ord[kept_positions(s)[i]] as int, ord[kept_positions(s)[j]] as int) by {
        let a = kept_positions(s)[i];
        let b = kept_positions(s)[j];
        assert(before(starts, ord[a] as int, ord[b] as int));
    }
}

/// The surviving rows stand in recency order: row `i` is the outcome of the
/// entry at `ord[kept_positions(s)[i]]`, and for `i < j` that entry started
/// later than the one behind row `j`, or at the same time and earlier in
/// the input.
pub proof fn lemma_rows_by_recency(owners: Seq<TimeOwner>, entries: Seq<TimeEntry>, email: Seq<char>)
    requires
        entries.len() <= usize::MAX,
    ensures
        ({
            let ord = recency_order(entries);
            let s = ranked_outcomes(owners, entries, email);
            &&& kept_positions(s).len() == kept(s).len()
            &&& forall|i: int|
                0 <= i < kept(s).len() ==> 0 <= #[trigger] kept_positions(s)[i] < s.len()
                    && s[kept_positions(s)[i]] == Ok::<RowView, SkipReason>(kept(s)[i])
                    && s[kept_positions(s)[i]] == outcome(owners, entries[ord[kept_positions(s)[i]] as int], email)
            &&& forall|i: int, j: int|
                0 <= i < j < kept(s).len() ==> before(
                    start_times(entries),
                    ord[#[trigger] kept_positions(s)[i]] as int,
                    ord[#[trigger] kept_positions(s)[j]] as int,
                )
        }),
{
    let starts = start_times(entries);
    lemma_recency_order_exists(starts);
    let ord = recency_order(entries);
    let s = ranked_outcomes(owners, entries, email);
    lemma_kept_follow_order(starts, ord, s);
}

proof fn lemma_kept_positions(s: Seq<Result<RowView, SkipReason>>)
    ensures
        kept_positions(s).len() == kept(s).len(),
        forall|i: int|
            0 <= i < kept(s).len() ==> 0 <= #[trigger] kept_positions(s)[i] < s.len() && s[kept_positions(s)[i]]
                == Ok::<RowView, SkipReason>(kept(s)[i]),
        forall|i: int, j: int|
            0 <= i < j < kept(s).len() ==> #[trigger] kept_positions(s)[i] < #[trigger] kept_positions(s)[j],
    decreases s.len(),
{
    if s.len() > 0 {
        let t = s.drop_last();
        lemma_kept_positions(t);
        assert forall|i: int| 0 <= i < kept(t).len() implies s[#[trigger] kept_positions(t)[i]] == t[kept_positions(t)[i]] by {}
    }
}

/// Skipping and taking apply to the rows that survived: a run yields the
/// surviving rows ranked `skip + 1` to `skip + take` by recency, or as many
/// of them as there are.
pub proof fn lemma_skip_take_after_filter(
    owners: Seq<TimeOwner>,
    entries: Seq<TimeEntry>,
    email: Seq<char>,
    skip: int,
    take: int,
)
    requires
        skip >= 0,
        take >= 0,
    ensures
        ({
            let survivors = kept(ranked_outcomes(owners, entries, email));
            let rows = rows_of(owners, entries, email, skip, take);
            &&& rows.len() == if skip >= survivors.len() {
                0
            } else {
                min(take, survivors.len() - skip)
            }
            &&& forall|i: int| 0 <= i < rows.len() ==> #[trigger] rows[i] == survivors[skip + i]
        }),
{
}

proof fn lemma_order_covers(starts: Seq<i64>, ord: Seq<usize>, b: int)
    requires
        is_recency_order(starts, ord),
        0 <= b < starts.len(),
    ensures
        exists|j: int| 0 <= j < ord.len() && ord[j] as int == b,
{
    let oi = ord.map_values(|x: usize| x as int);
    let n = starts.len() as int;
    assert(oi.no_duplicates()) by {
        assert forall|i: int, j: int| 0 <= i < oi.len() && 0 <= j < oi.len() && i != j implies oi[i]
            != oi[j] by {
            if i < j {
                assert(before(starts, ord[i] as int, ord[j] as int));
            } else {
                assert(before(starts, ord[j] as int, ord[i] as int));
            }
        }
    }
    oi.unique_seq_to_set();
    lemma_int_range(0, n);
    assert(oi.to_set().subset_of(set_int_range(0, n))) by {
        assert forall|x: int| oi.to_set().contains(x) implies set_int_range(0, n).contains(x) by {
            let i = choose|i: int| 0 <= i < oi.len() && oi[i] == x;
            assert(ord[i] as int == x);
        }
    }
    lemma_subset_equality(oi.to_set(), set_int_range(0, n));
    assert(set_int_range(0, n).contains(b));
    assert(oi.to_set().contains(b));
    let j = choose|j: int| 0 <= j < oi.len() && oi[j] == b;
    assert(ord[j] as int == b);
}

proof fn lemma_orders_agree_upto(starts: Seq<i64>, o1: Seq<usize>, o2: Seq<usize>, n: int)
    requires
        is_recency_order(starts, o1),
        is_recency_order(starts, o2),
        0 <= n <= o1.len(),
    ensures
        forall|k: int| 0 <= k < n ==> o1[k] == o2[k],
    decreases n,
{
    if n > 0 {
        let i = n - 1;
        lemma_orders_agree_upto(starts, o1, o2, i);
        let a = o1[i] as int;
        let b = o2[i] as int;
        if a != b {
            lemma_order_covers(starts, o1, b);
            let j = choose|j: int| 0 <= j < o1.len() && o1[j] as int == b;
            lemma_order_covers(starts, o2, a);
            let k = choose|k: int| 0 <= k < o2.len() && o2[k] as int == a;
            if j < i {
                assert(o2[j] as int == b);
                assert(before(starts, o2[j] as int, o2[i] as int));
            }
            if k < i {
                assert(o1[k] as int == a);
                assert(before(starts, o1[k] as int, o1[i] as int));
            }
            assert(before(starts, o1[i] as int, o1[j] as int));
            assert(before(starts, o2[i] as int, o2[k] as int));
        }
    }
}

/// A list of start times has one recency order.
pub proof fn lemma_recency_order_unique(starts: Seq<i64>, o1: Seq<usize>, o2: Seq<usize>)
    requires
        is_recency_order(starts, o1),
        is_recency_order(starts, o2),
    ensures
        o1 == o2,
{
    lemma_orders_agree_upto(starts, o1, o2, o1.len() as int);
    assert(o1 =~= o2);
}

/// The first position from `q` on where `m` comes before the entry there.
spec fn insert_position(starts: Seq<i64>, o: Seq<usize>, m: int, q: int) -> int
    decreases o.len() - q,
{
    if q >= o.len() {
        q
    } else if before(starts, m, o[q] as int) {
        q
    } else {
        insert_position(starts, o, m, q + 1)
    }
}

proof fn lemma_insert_position(starts: Seq<i64>, o: Seq<usize>, m: int, q: int)
    requires
        0 <= q <= o.len(),
    ensures
        q <= insert_position(starts, o, m, q) <= o.len(),
        forall|k: int|
            q <= k < insert_position(starts, o, m, q) ==> !before(starts, m, #[trigger] o[k] as int),
        insert_position(starts, o, m, q) < o.len() ==> before(
            starts,
            m,
            o[insert_position(starts, o, m, q)] as int,
        ),
    decreases o.len() - q,
{
    if q < o.len() && !before(starts, m, o[q] as int) {
        lemma_insert_position(starts, o, m, q + 1);
    }
}

proof fn lemma_recency_order_of_prefix(starts: Seq<i64>, n: int) -> (o: Seq<usize>)
    requires
        0 <= n <= starts.len(),
        starts.len() <= usize::MAX,
    ensures
        o.len() == n,
        forall|i: int| 0 <= i < o.len() ==> (#[trigger] o[i] as int) < n,
        forall|i: int, j: int|
            0 <= i < j < o.len() ==> before(starts, #[trigger] o[i] as int, #[trigger] o[j] as int),
    decreases n,
{
    if n == 0 {
        Seq::empty()
    } else {
        let m = n - 1;
        let o0 = lemma_recency_order_of_prefix(starts, m);
        lemma_insert_position(starts, o0, m, 0);
        let p = insert_position(starts, o0, m, 0);
        let o = o0.insert(p, m as usize);
        assert forall|i: int, j: int| 0 <= i < j < o.len() implies before(
            starts,
            #[trigger] o[i] as int,
            #[trigger] o[j] as int,
        ) by {
            if j < p {
                assert(o[i] == o0[i] && o[j] == o0[j]);
            } else if j == p {
                assert(o[i] == o0[i]);
                assert(!before(starts, m, o0[i] as int));
            } else if i < p {
                assert(o[i] == o0[i] && o[j] == o0[j - 1]);
            } else if i == p {
                assert(o[j] == o0[j - 1]);
                assert(before(starts, m, o0[p] as int));
                if j - 1 > p {
                    assert(before(starts, o0[p] as int, o0[j - 1] as int));
                }
            } else {
                assert(o[i] == o0[i - 1] && o[j] == o0[j - 1]);
            }
        }
        assert forall|i: int| 0 <= i < o.len() implies (#[trigger] o[i] as int) < n by {
            if i < p {
                assert(o[i] == o0[i]);
            } else if i > p {
                assert(o[i] == o0[i - 1]);
            }
        }
        o
    }
}

/// Every list of start times has a recency order.
pub proof fn lemma_recency_order_exists(starts: Seq<i64>)
    requires
        starts.len() <= usize::MAX,
    ensures
        is_recency_order(starts, choose|ord: Seq<usize>| is_recency_order(starts, ord)),
{
    let o = lemma_recency_order_of_prefix(starts, starts.len() as int);
    assert(is_recency_order(starts, o));
}

proof fn lemma_kept_remove_skipped(s: Seq<Result<RowView, SkipReason>>, p: int)
    requires
        0 <= p < s.len(),
        s[p] is Err,
    ensures
        kept(s.remove(p)) == kept(s),
    decreases s.len(),
{
    if p == s.len() - 1 {
        assert(s.remove(p) =~= s.drop_last());
    } else {
        let t = s.remove(p);
        assert(t.drop_last() =~= s.drop_last().remove(p));
        assert(t.last() == s.last());
        lemma_kept_remove_skipped(s.drop_last(), p);
    }
}

spec fn shift_down(v: usize, x: int) -> usize {
    if v as int > x {
        (v - 1) as usize
    } else {
        v
    }
}

/// An entry that produces no row changes nothing in the rows of a run: the
/// run without it yields the same rows.
pub proof fn lemma_skipped_entry_leaves_rows(
    owners: Seq<TimeOwner>,
    entries: Seq<TimeEntry>,
    email: Seq<char>,
    skip: int,
    take: int,
    x: int,
)
    requires
        entries.len() <= usize::MAX,
        0 <= x < entries.len(),
        outcome(owners, entries[x], email) is Err,
    ensures
        rows_of(owners, entries.remove(x), email, skip, take) == rows_of(
            owners,
            entries,
            email,
            skip,
            take,
        ),
{
    let starts = start_times(entries);
    let e2 = entries.remove(x);
    let starts2 = start_times(e2);
    assert(starts2 =~= starts.remove(x));
    lemma_recency_order_exists(starts);
    let ord = recency_order(entries);
    lemma_order_covers(starts, ord, x);
    let p = choose|p: int| 0 <= p < ord.len() && ord[p] as int == x;
    let r = ord.remove(p);
    assert forall|k: int| 0 <= k < r.len() implies #[trigger] r[k] as int != x by {
        let q = if k < p { k } else { k + 1 };
        assert(r[k] == ord[q]);
        if q < p {
            assert(before(starts, ord[q] as int, ord[p] as int));
        } else {
            assert(before(starts, ord[p] as int, ord[q] as int));
        }
    }
    let o2 = Seq::new(r.len(), |k: int| shift_down(r[k], x));
    assert(is_recency_order(starts2, o2)) by {
        assert forall|k: int| 0 <= k < o2.len() implies (#[trigger] o2[k] as int) < starts2.len() by {
            let q = if k < p { k } else { k + 1 };
            assert(r[k] == ord[q]);
        }
        assert forall|i: int, j: int| 0 <= i < j < o2.len() implies before(
            starts2,
            #[trigger] o2[i] as int,
            #[trigger] o2[j] as int,
        ) by {
            let qi = if i < p { i } else { i + 1 };
            let qj = if j < p { j } else { j + 1 };
            assert(r[i] == ord[qi] && r[j] == ord[qj]);
            assert(before(starts, ord[qi] as int, ord[qj] as int));
            assert(starts2[o2[i] as int] == starts[r[i] as int]);
            assert(starts2[o2[j] as int] == starts[r[j] as int]);
        }
    }
    lemma_recency_order_unique(starts2, o2, recency_order(e2));
    let s = ranked_outcomes(owners, entries, email);
    let s2 = ranked_outcomes(owners, e2, email);
    assert(s2 =~= s.remove(p)) by {
        assert forall|k: int| 0 <= k < s2.len() implies s2[k] == s.remove(p)[k] by {
            let q = if k < p { k } else { k + 1 };
            assert(r[k] == ord[q]);
            assert(e2[o2[k] as int] == entries[r[k] as int]);
        }
    }
    lemma_kept_remove_skipped(s, p);
}

} // verus!

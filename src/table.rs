use vstd::prelude::*;

use crate::history::{ids_of, EntryId};
use crate::ranking::{is_ranking, precedes, rank_desc};
use crate::record::{lemma_key_order, Entry, EntryView};
use nucleo_matcher::pattern::{AtomKind, CaseMatching, Normalization, Pattern};
use nucleo_matcher::{Matcher, Utf32Str};

verus! {

/// The longest query (in characters) that is scored; a longer one matches nothing.
pub const MAX_QUERY_LEN: usize = 2048;

/// The relevance of `haystack` for the fuzzy `query`, or nothing when it does not match.
pub uninterp spec fn fuzzy_match(query: Seq<char>, haystack: Seq<char>) -> Option<u32>;

/// Relies on nucleo_matcher's `Pattern::score`, for a `Pattern::new` of `query` that
/// ignores case, normalizes smartly and matches each word fuzzily, with a default
/// `Matcher`: the score depends on the two texts alone, and a query without words
/// (the empty one) scores 0 on every text. The matcher adds up a match's score in a
/// `u16`, which a query longer than `MAX_QUERY_LEN` characters can overflow.
#[verifier::external_body]
fn fuzzy_score(query: &str, haystack: &str) -> (r: Option<u32>)
    requires
        query@.len() <= MAX_QUERY_LEN,
    ensures
        r == fuzzy_match(query@, haystack@),
        query@.len() == 0 ==> r == Some(0u32),
{
    let pattern = Pattern::new(query, CaseMatching::Ignore, Normalization::Smart, AtomKind::Fuzzy);
    let mut buf = Vec::new();
    pattern.score(Utf32Str::new(haystack, &mut buf), &mut Matcher::default())
}

/// An optional number as an optional integer.
pub open spec fn opt_int(o: Option<u64>) -> Option<int> {
    match o {
        Some(n) => Some(n as int),
        None => None,
    }
}

/// The sum of the present numbers; nothing when neither is present.
pub open spec fn opt_sum(o1: Option<int>, o2: Option<int>) -> Option<int> {
    match (o1, o2) {
        (Some(n1), Some(n2)) => Some(n1 + n2),
        (Some(n), None) => Some(n),
        (None, Some(n)) => Some(n),
        (None, None) => None,
    }
}

/// Adds two optional numbers: the result is present when at least one of them is.
pub fn add_num_opt(o1: Option<u64>, o2: Option<u64>) -> (r: Option<u64>)
    requires
        o1 is Some && o2 is Some ==> o1->0 + o2->0 <= u64::MAX,
    ensures
        opt_int(r) == opt_sum(opt_int(o1), opt_int(o2)),
{
    match (o1, o2) {
        (Some(n1), Some(n2)) => Some(n1 + n2),
        (Some(n), None) | (None, Some(n)) => Some(n),
        _ => None,
    }
}

fn widen(o: Option<u32>) -> (r: Option<u64>)
    ensures
        opt_int(r) == opt_u32(o),
{
    match o {
        Some(n) => Some(n as u64),
        None => None,
    }
}

/// An optional small number as an optional integer.
pub open spec fn opt_u32(o: Option<u32>) -> Option<int> {
    match o {
        Some(n) => Some(n as int),
        None => None,
    }
}

/// The container name of a record, empty when there is none.
pub open spec fn container_text(e: EntryView) -> Seq<char> {
    match e.dev_container_name {
        Some(n) => n,
        None => Seq::empty(),
    }
}

/// The relevance of a record for `query`: the sum of the scores of its workspace
/// name, container name and path that match, or nothing when none of them does or
/// the query is longer than `MAX_QUERY_LEN`.
pub open spec fn row_score(query: Seq<char>, e: EntryView) -> Option<int> {
    if query.len() > MAX_QUERY_LEN {
        None
    } else {
        opt_sum(
            opt_sum(
                opt_u32(fuzzy_match(query, e.workspace_name)),
                opt_u32(fuzzy_match(query, container_text(e))),
            ),
            opt_u32(fuzzy_match(query, e.workspace_path)),
        )
    }
}

/// What a row of the table holds, as values.
pub struct RowView {
    pub id: EntryId,
    pub entry: EntryView,
    pub score: Option<u64>,
}

/// One row of the table: a record, its identifier and its relevance for the
/// current query (nothing: filtered out; 0 when no query is active).
#[derive(Debug)]
pub struct TableRow {
    pub id: EntryId,
    pub entry: Entry,
    pub search_score: Option<u64>,
}

impl View for TableRow {
    type V = RowView;

    open spec fn view(&self) -> RowView {
        RowView { id: self.id, entry: self.entry@, score: self.search_score }
    }
}

/// The ranking keys of rows: their scores; a row without score has none.
pub open spec fn score_keys(rows: Seq<TableRow>) -> Seq<Option<i128>> {
    rows.map_values(|r: TableRow| score_key(r.search_score))
}

/// The ranking key of a score.
pub open spec fn score_key(s: Option<u64>) -> Option<i128> {
    match s {
        Some(n) => Some(n as i128),
        None => None,
    }
}

/// The ranking keys of records: their times of opening.
pub open spec fn recency_keys(items: Seq<(EntryId, Entry)>) -> Seq<Option<i128>> {
    items.map_values(|p: (EntryId, Entry)| Some(p.1.last_opened.key() as i128))
}

/// The largest of the lengths (in characters) of `names`, nothing for no names.
pub open spec fn longest(names: Seq<Seq<char>>) -> Option<nat>
    decreases names.len(),
{
    if names.len() == 0 {
        None
    } else {
        let rest = longest(names.drop_last());
        let last = names.last().len();
        match rest {
            Some(m) if m >= last => Some(m),
            _ => Some(last),
        }
    }
}

/// The positions `0..n` in order.
pub open spec fn identity(n: nat) -> Seq<usize> {
    Seq::new(n, |a: int| a as usize)
}

/// What the table holds: its rows in the order of the records' recency, and the
/// positions of the visible rows in display order.
pub struct TableView {
    pub rows: Seq<RowView>,
    pub order: Seq<usize>,
    pub max_workspace_name_len: Option<nat>,
    pub max_devcontainer_name_len: Option<nat>,
}

impl TableView {
    /// The visible rows, in display order.
    pub open spec fn visible(self) -> Seq<RowView> {
        self.order.map_values(|p: usize| self.rows[p as int])
    }
}

/// The table of the selector: every record of the history as a row, and the rows
/// that the current query lets through, best first.
#[derive(Debug)]
pub struct TableData {
    rows: Vec<TableRow>,
    order: Vec<usize>,
    max_workspace_name_len: Option<usize>,
    max_devcontainer_name_len: Option<usize>,
}

/// The views of a list of rows.
pub open spec fn row_views(rows: Seq<TableRow>) -> Seq<RowView> {
    rows.map_values(|r: TableRow| r@)
}

/// Option of a size as an option of a natural number.
pub open spec fn opt_nat(o: Option<usize>) -> Option<nat> {
    match o {
        Some(n) => Some(n as nat),
        None => None,
    }
}

/// The rows keep their records and identifiers; only scores may change.
pub open spec fn same_records(a: Seq<RowView>, b: Seq<RowView>) -> bool {
    &&& a.len() == b.len()
    &&& forall|i: int| 0 <= i < a.len() ==> #[trigger] a[i].id == b[i].id && a[i].entry == b[i].entry
}

/// The identity lists all positions when every key is equal.
proof fn lemma_identity_ranks(keys: Seq<Option<i128>>)
    requires
        keys.len() <= usize::MAX,
        forall|i: int| 0 <= i < keys.len() ==> #[trigger] keys[i] == Some(0i128),
    ensures
        is_ranking(keys, identity(keys.len())),
{
    let id = identity(keys.len());
    assert forall|a: int, b: int| 0 <= a < b < id.len() implies precedes(
        keys,
        #[trigger] id[a] as int,
        #[trigger] id[b] as int,
    ) by {
        assert(keys[a] == Some(0i128) && keys[b] == Some(0i128));
    }
    assert forall|i: int| 0 <= i < keys.len() && #[trigger] keys[i] is Some implies id.contains(
        i as usize,
    ) by {
        assert(id[i] == i as usize);
    }
}

/// Rows with the same records in the same places keep recency order and distinctness.
proof fn lemma_records_keep(a: Seq<RowView>, b: Seq<RowView>)
    requires
        same_records(a, b),
        recency_sorted(a),
        distinct_ids(a),
    ensures
        recency_sorted(b),
        distinct_ids(b),
{
    assert forall|x: int, y: int| 0 <= x < y < b.len() implies !(#[trigger] b[y]).entry.last_opened.after(
        (#[trigger] b[x]).entry.last_opened,
    ) by {
        assert(a[x].entry == b[x].entry && a[y].entry == b[y].entry);
        assert(!a[y].entry.last_opened.after(a[x].entry.last_opened));
    }
    assert forall|x: int, y: int| 0 <= x < y < b.len() implies (#[trigger] b[x]).id != (#[trigger] b[y]).id by {
        assert(a[x].id == b[x].id && a[y].id == b[y].id);
        assert(a[x].id != a[y].id);
    }
}

/// Removing a row keeps recency order and distinctness, and leaves no row of its record.
proof fn lemma_remove_keeps(a: Seq<RowView>, p: int)
    requires
        0 <= p < a.len(),
        recency_sorted(a),
        distinct_ids(a),
    ensures
        recency_sorted(a.remove(p)),
        distinct_ids(a.remove(p)),
        forall|i: int| 0 <= i < a.remove(p).len() ==> (#[trigger] a.remove(p)[i]).id != a[p].id,
{
    let b = a.remove(p);
    assert forall|x: int, y: int| 0 <= x < y < b.len() implies !(#[trigger] b[y]).entry.last_opened.after(
        (#[trigger] b[x]).entry.last_opened,
    ) by {
        let x0 = if x < p { x } else { x + 1 };
        let y0 = if y < p { y } else { y + 1 };
        assert(b[x] == a[x0] && b[y] == a[y0]);
        assert(!a[y0].entry.last_opened.after(a[x0].entry.last_opened));
    }
    assert forall|x: int, y: int| 0 <= x < y < b.len() implies (#[trigger] b[x]).id != (#[trigger] b[y]).id by {
        let x0 = if x < p { x } else { x + 1 };
        let y0 = if y < p { y } else { y + 1 };
        assert(b[x] == a[x0] && b[y] == a[y0]);
        assert(a[x0].id != a[y0].id);
    }
    assert forall|i: int| 0 <= i < b.len() implies (#[trigger] b[i]).id != a[p].id by {
        let i0 = if i < p { i } else { i + 1 };
        assert(b[i] == a[i0]);
        if i0 < p {
            assert(a[i0].id != a[p].id);
        } else {
            assert(a[p].id != a[i0].id);
        }
    }
}

impl View for TableData {
    type V = TableView;

    closed spec fn view(&self) -> TableView {
        TableView {
            rows: row_views(self.rows@),
            order: self.order@,
            max_workspace_name_len: opt_nat(self.max_workspace_name_len),
            max_devcontainer_name_len: opt_nat(self.max_devcontainer_name_len),
        }
    }
}

/// `new` is `old` with every row scored against `query` and the matching rows
/// ranked, best first; the empty query scores every row 0. Rows with equal scores
/// keep the table's base order, the order of recency in which it was built, so
/// the display order is a function of the query alone and does not depend on the
/// queries typed before it.
pub open spec fn filtered(old: TableView, query: Seq<char>, new: TableView) -> bool {
    &&& same_records(old.rows, new.rows)
    &&& forall|i: int|
        0 <= i < new.rows.len() ==> opt_int((#[trigger] new.rows[i]).score) == row_score(
            query,
            new.rows[i].entry,
        )
    &&& table_ok(new)
    &&& query.len() == 0 ==> forall|i: int|
        0 <= i < new.rows.len() ==> (#[trigger] new.rows[i]).score == Some(0u64)
    &&& new.max_workspace_name_len == old.max_workspace_name_len
    &&& new.max_devcontainer_name_len == old.max_devcontainer_name_len
}

/// `new` is `old` with every row scored 0 and shown in row order.
pub open spec fn unfiltered(old: TableView, new: TableView) -> bool {
    &&& same_records(old.rows, new.rows)
    &&& forall|i: int| 0 <= i < new.rows.len() ==> (#[trigger] new.rows[i]).score == Some(0u64)
    &&& new.order == identity(new.rows.len())
    &&& table_ok(new)
    &&& new.max_workspace_name_len == old.max_workspace_name_len
    &&& new.max_devcontainer_name_len == old.max_devcontainer_name_len
}

/// `new` and `r` are what removing the row of record `id` from `old` gives: the
/// first such row is gone and the rest are ranked as before; without such a row
/// nothing changes and `r` is false.
pub open spec fn row_removed(old: TableView, id: EntryId, new: TableView, r: bool) -> bool {
    &&& r == exists|p: int| 0 <= p < old.rows.len() && (#[trigger] old.rows[p]).id == id
    &&& r ==> exists|p: int|
        0 <= p < old.rows.len() && (#[trigger] old.rows[p]).id == id && (forall|q: int|
            0 <= q < p ==> (#[trigger] old.rows[q]).id != id) && new.rows == old.rows.remove(p)
    &&& r ==> forall|i: int| 0 <= i < new.rows.len() ==> (#[trigger] new.rows[i]).id != id
    &&& !r ==> new == old
    &&& table_ok(new)
    &&& new.max_workspace_name_len == old.max_workspace_name_len
    &&& new.max_devcontainer_name_len == old.max_devcontainer_name_len
}

/// The score of some row differs between `old` and `new`.
pub open spec fn scores_changed(old: TableView, new: TableView) -> bool {
    exists|i: int| 0 <= i < new.rows.len() && #[trigger] new.rows[i].score != old.rows[i].score
}

/// `t` is the table built from `items`: a row for each of them, latest opened
/// first (records opened at the same time in the order of `items`), all visible
/// with the neutral score 0.
pub open spec fn built_from(items: Seq<(EntryId, Entry)>, t: TableView) -> bool {
    &&& t.rows.len() == items.len()
    &&& exists|perm: Seq<usize>|
        {
            &&& is_ranking(recency_keys(items), perm)
            &&& perm.len() == items.len()
            &&& forall|a: int|
                0 <= a < perm.len() ==> (#[trigger] t.rows[a]).id == items[perm[a] as int].0
                    && t.rows[a].entry == items[perm[a] as int].1@
        }
    &&& forall|a: int| 0 <= a < t.rows.len() ==> (#[trigger] t.rows[a]).score == Some(0u64)
    &&& forall|a: int, b: int|
        0 <= a < b < t.rows.len() ==> !(#[trigger] t.rows[b]).entry.last_opened.after(
            (#[trigger] t.rows[a]).entry.last_opened,
        )
    &&& t.order == identity(t.rows.len())
    &&& t.max_workspace_name_len == longest(workspace_names(t.rows))
    &&& t.max_devcontainer_name_len == longest(container_names(t.rows))
    &&& table_ok(t)
}

/// The rows are in order of recency: none was opened after a row before it.
pub open spec fn recency_sorted(rows: Seq<RowView>) -> bool {
    forall|a: int, b: int|
        0 <= a < b < rows.len() ==> !(#[trigger] rows[b]).entry.last_opened.after(
            (#[trigger] rows[a]).entry.last_opened,
        )
}

/// No two rows are rows of the same record.
pub open spec fn distinct_ids(rows: Seq<RowView>) -> bool {
    forall|a: int, b: int| 0 <= a < b < rows.len() ==> (#[trigger] rows[a]).id != (#[trigger] rows[b]).id
}

/// What holds of every table: the rows are in order of recency and of distinct
/// records, the visible ones are ranked by score, and when every row has a score
/// every row is visible.
pub open spec fn table_ok(v: TableView) -> bool {
    &&& ranked_by_score(v)
    &&& recency_sorted(v.rows)
    &&& distinct_ids(v.rows)
    &&& (forall|i: int| 0 <= i < v.rows.len() ==> (#[trigger] v.rows[i]).score is Some) ==> v.order.len()
        == v.rows.len()
}

/// The parts of a table fit together as `table_ok` asks.
spec fn parts_ok(rows: Seq<TableRow>, order: Seq<usize>) -> bool {
    &&& is_ranking(score_keys(rows), order)
    &&& recency_sorted(row_views(rows))
    &&& distinct_ids(row_views(rows))
    &&& (forall|i: int| 0 <= i < rows.len() ==> (#[trigger] rows[i]).search_score is Some) ==> order.len()
        == rows.len()
}

/// The keys of rows are the keys of their scores.
pub open spec fn ranked_by_score(v: TableView) -> bool {
    is_ranking(v.rows.map_values(|r: RowView| score_key(r.score)), v.order)
}

impl TableData {
    #[verifier::type_invariant]
    closed spec fn well_formed(self) -> bool {
        parts_ok(self.rows@, self.order@)
    }

    proof fn lemma_view(&self)
        requires
            self.well_formed(),
        ensures
            table_ok(self@),
            forall|a: int| 0 <= a < self.order@.len() ==> #[trigger] self.order@[a] < self.rows@.len(),
    {
        assert(self@.rows.map_values(|r: RowView| score_key(r.score)) =~= score_keys(self.rows@));
        if forall|i: int| 0 <= i < self@.rows.len() ==> (#[trigger] self@.rows[i]).score is Some {
            assert forall|i: int| 0 <= i < self.rows@.len() implies (#[trigger] self.rows@[i]).search_score is Some by {
                assert(self@.rows[i].score is Some);
            }
        }
    }

    /// The rows for `items`, latest opened first (records opened at the same time
    /// in the order of `items`), all visible with the neutral score 0.
    pub fn from_iter(items: Vec<(EntryId, Entry)>) -> (r: TableData)
        requires
            ids_of(items@).no_duplicates(),
        ensures
            built_from(items@, r@),
    {
        let n = items.len();
        let mut keys: Vec<Option<i128>> = Vec::new();
        let mut i: usize = 0;
        while i < n
            invariant
                n == items@.len(),
                i <= n,
                keys@.len() == i,
                forall|j: int| 0 <= j < i ==> #[trigger] keys@[j] == recency_keys(items@)[j],
            decreases n - i,
        {
            keys.push(Some(items[i].1.last_opened.recency_key()));
            i += 1;
        }
        assert(keys@ =~= recency_keys(items@));
        let perm = rank_desc(&keys);
        let mut rows: Vec<TableRow> = Vec::new();
        let mut order: Vec<usize> = Vec::new();
        let mut a: usize = 0;
        while a < n
            invariant
                n == items@.len(),
                perm@.len() == n,
                forall|b: int| 0 <= b < n ==> #[trigger] perm@[b] < n,
                a <= n,
                rows@.len() == a,
                order@ == identity(a as nat),
                forall|b: int|
                    0 <= b < a ==> (#[trigger] rows@[b]).id == items@[perm@[b] as int].0
                        && rows@[b].entry@ == items@[perm@[b] as int].1@ && rows@[b].search_score
                        == Some(0u64),
            decreases n - a,
        {
            let p = perm[a];
            rows.push(TableRow { id: items[p].0, entry: items[p].1.duplicate(), search_score: Some(0) });
            order.push(a);
            assert(order@ =~= identity((a + 1) as nat));
            a += 1;
        }
        proof {
            assert forall|b: int, c: int| 0 <= b < c < rows@.len() implies !(#[trigger] row_views(
                rows@,
            )[c]).entry.last_opened.after((#[trigger] row_views(rows@)[b]).entry.last_opened) by {
                assert(precedes(keys@, perm@[b] as int, perm@[c] as int));
                lemma_key_order(
                    items@[perm@[b] as int].1.last_opened,
                    items@[perm@[c] as int].1.last_opened,
                );
            }
            assert forall|b: int, c: int| 0 <= b < c < rows@.len() implies (#[trigger] row_views(rows@)[b]).id
                != (#[trigger] row_views(rows@)[c]).id by {
                assert(precedes(keys@, perm@[b] as int, perm@[c] as int));
                assert(ids_of(items@)[perm@[b] as int] == items@[perm@[b] as int].0);
                assert(ids_of(items@)[perm@[c] as int] == items@[perm@[c] as int].0);
            }
            lemma_identity_ranks(score_keys(rows@));
        }
        let max_workspace_name_len = longest_workspace_name(&rows);
        let max_devcontainer_name_len = longest_container_name(&rows);
        let r = TableData { rows, order, max_workspace_name_len, max_devcontainer_name_len };
        proof {
            r.lemma_view();
        }
        r
    }

    /// Moves the rows and the ranking out, leaving an empty table with the same
    /// name lengths.
    fn take_parts(&mut self) -> (r: (Vec<TableRow>, Vec<usize>))
        ensures
            r.0@ == old(self).rows@,
            r.1@ == old(self).order@,
            parts_ok(r.0@, r.1@),
            final(self)@.max_workspace_name_len == old(self)@.max_workspace_name_len,
            final(self)@.max_devcontainer_name_len == old(self)@.max_devcontainer_name_len,
    {
        proof {
            use_type_invariant(&*self);
        }
        let mut taken = TableData {
            rows: Vec::new(),
            order: Vec::new(),
            max_workspace_name_len: self.max_workspace_name_len,
            max_devcontainer_name_len: self.max_devcontainer_name_len,
        };
        proof {
            assert(score_keys(taken.rows@) =~= Seq::<Option<i128>>::empty());
            assert(row_views(taken.rows@) =~= Seq::<RowView>::empty());
        }
        std::mem::swap(self, &mut taken);
        let TableData { rows, order, .. } = taken;
        (rows, order)
    }

    /// Scores every row against `query` and ranks the rows that match, best first,
    /// equal scores in row order. Tells whether the score of a row changed.
    pub fn apply_filter(&mut self, query: &str) -> (r: bool)
        ensures
            filtered(old(self)@, query@, final(self)@),
            r == scores_changed(old(self)@, final(self)@),
            !r ==> final(self)@ == old(self)@,
    {
        let ghost old_rows = row_views(self.rows@);
        let ghost old_view = self@;
        let max_workspace_name_len = self.max_workspace_name_len;
        let max_devcontainer_name_len = self.max_devcontainer_name_len;
        let too_long = query.unicode_len() > MAX_QUERY_LEN;
        let (mut rows, old_order) = self.take_parts();
        let ghost old_raw = rows@;
        let mut changes = false;
        let mut keys: Vec<Option<i128>> = Vec::new();
        let mut i: usize = 0;
        while i < rows.len()
            invariant
                i <= rows@.len(),
                same_records(old_rows, row_views(rows@)),
                too_long == (query@.len() > MAX_QUERY_LEN),
                keys@.len() == i,
                forall|j: int| 0 <= j < i ==> opt_int((#[trigger] rows@[j]).search_score) == row_score(query@, rows@[j].entry@),
                forall|j: int| i <= j < rows@.len() ==> (#[trigger] rows@[j]).search_score == old_rows[j].score,
                forall|j: int| 0 <= j < i ==> #[trigger] keys@[j] == score_key(rows@[j].search_score),
                changes == exists|j: int| 0 <= j < i && #[trigger] rows@[j].search_score != old_rows[j].score,
                query@.len() == 0 ==> forall|j: int| 0 <= j < i ==> (#[trigger] rows@[j]).search_score == Some(0u64),
            decreases rows@.len() - i,
        {
            let ghost before = rows@;
            let score = if too_long {
                None
            } else {
                let e = &rows[i].entry;
                let container: &str = match &e.dev_container_name {
                    Some(n) => n.as_str(),
                    None => "",
                };
                proof {
                    reveal_strlit("");
                    assert(container@ == container_text(e@));
                }
                add_num_opt(
                    add_num_opt(
                        widen(fuzzy_score(query, e.workspace_name.as_str())),
                        widen(fuzzy_score(query, container)),
                    ),
                    widen(fuzzy_score(query, e.workspace_path.as_str())),
                )
            };
            changes = changes || score != rows[i].search_score;
            rows[i].search_score = score;
            keys.push(match score {
                Some(n) => Some(n as i128),
                None => None,
            });
            proof {
                assert forall|j: int| 0 <= j < rows@.len() && j != i implies #[trigger] rows@[j] == before[j] by {}
                assert(same_records(old_rows, row_views(rows@))) by {
                    assert forall|j: int| 0 <= j < old_rows.len() implies #[trigger] old_rows[j].id
                        == row_views(rows@)[j].id && old_rows[j].entry == row_views(rows@)[j].entry by {
                        assert(row_views(before)[j].id == old_rows[j].id);
                    }
                }
                if changes {
                    if !(exists|j: int| 0 <= j < i && #[trigger] before[j].search_score != old_rows[j].score) {
                        assert(rows@[i as int].search_score != old_rows[i as int].score);
                    } else {
                        let j = choose|j: int| 0 <= j < i && #[trigger] before[j].search_score != old_rows[j].score;
                        assert(rows@[j].search_score != old_rows[j].score);
                    }
                }
            }
            i += 1;
        }
        assert(keys@ =~= score_keys(rows@));
        let ghost new_rows = rows@;
        proof {
            assert(old_rows =~= row_views(old_raw));
            lemma_records_keep(old_rows, row_views(new_rows));
        }
        let mut order = old_order;
        if changes {
            order = rank_desc(&keys);
        } else {
            proof {
                assert forall|j: int| 0 <= j < new_rows.len() implies (#[trigger] new_rows[j]).search_score
                    == old_raw[j].search_score by {
                    if new_rows[j].search_score != old_rows[j].score {
                        assert(exists|k: int| 0 <= k < new_rows.len() && #[trigger] new_rows[k].search_score != old_rows[k].score);
                    }
                    assert(old_rows[j].score == old_raw[j].search_score);
                }
                assert(score_keys(new_rows) =~= score_keys(old_raw));
            }
        }
        proof {
            if forall|k: int| 0 <= k < new_rows.len() ==> (#[trigger] new_rows[k]).search_score is Some {
                assert forall|k: int| 0 <= k < keys@.len() implies #[trigger] keys@[k] is Some by {
                    assert(keys@[k] == score_key(new_rows[k].search_score));
                }
                if !changes {
                    assert forall|k: int| 0 <= k < old_raw.len() implies (#[trigger] old_raw[k]).search_score is Some by {
                        assert(new_rows[k].search_score == old_raw[k].search_score);
                    }
                }
            }
        }
        *self = TableData { rows, order, max_workspace_name_len, max_devcontainer_name_len };
        proof {
            self.lemma_view();
            if !changes {
                assert(self@.rows =~= old_view.rows) by {
                    assert forall|j: int| 0 <= j < new_rows.len() implies #[trigger] row_views(new_rows)[j] == old_rows[j] by {
                        assert(new_rows[j].search_score == old_raw[j].search_score);
                        assert(old_rows[j].id == row_views(new_rows)[j].id);
                    }
                }
            }
            assert(forall|j: int| 0 <= j < new_rows.len() ==> #[trigger] row_views(new_rows)[j].score == new_rows[j].search_score);
            if query@.len() == 0 {
                assert(forall|j: int| 0 <= j < new_rows.len() ==> (#[trigger] row_views(new_rows)[j]).score == Some(0u64));
            }
            if changes {
                let j = choose|j: int| 0 <= j < new_rows.len() && #[trigger] new_rows[j].search_score != old_rows[j].score;
                assert(row_views(new_rows)[j].score != old_rows[j].score);
            } else {
                assert forall|j: int| 0 <= j < new_rows.len() implies #[trigger] row_views(new_rows)[j].score == old_rows[j].score by {
                    assert(new_rows[j].search_score == old_rows[j].score);
                }
            }
        }
        changes
    }

    /// Gives every row the neutral score 0 and shows all rows in row order, which is
    /// the order of recency.
    pub fn reset_filter(&mut self)
        ensures
            unfiltered(old(self)@, final(self)@),
    {
        let ghost old_rows = row_views(self.rows@);
        let max_workspace_name_len = self.max_workspace_name_len;
        let max_devcontainer_name_len = self.max_devcontainer_name_len;
        let (mut rows, _) = self.take_parts();
        proof {
            assert(old_rows =~= row_views(rows@));
        }
        let mut order: Vec<usize> = Vec::new();
        let mut i: usize = 0;
        while i < rows.len()
            invariant
                i <= rows@.len(),
                same_records(old_rows, row_views(rows@)),
                forall|j: int| 0 <= j < i ==> (#[trigger] rows@[j]).search_score == Some(0u64),
                order@ == identity(i as nat),
            decreases rows@.len() - i,
        {
            let ghost before = rows@;
            rows[i].search_score = Some(0);
            order.push(i);
            proof {
                assert forall|j: int| 0 <= j < rows@.len() && j != i implies #[trigger] rows@[j] == before[j] by {}
                assert(order@ =~= identity((i + 1) as nat));
                assert(same_records(old_rows, row_views(rows@))) by {
                    assert forall|j: int| 0 <= j < old_rows.len() implies #[trigger] old_rows[j].id
                        == row_views(rows@)[j].id && old_rows[j].entry == row_views(rows@)[j].entry by {
                        assert(row_views(before)[j].id == old_rows[j].id);
                    }
                }
            }
            i += 1;
        }
        proof {
            lemma_identity_ranks(score_keys(rows@));
            lemma_records_keep(old_rows, row_views(rows@));
        }
        *self = TableData { rows, order, max_workspace_name_len, max_devcontainer_name_len };
        proof {
            self.lemma_view();
        }
    }

    /// Removes the first row of record `id`, if there is one, and ranks the rest as
    /// before. Tells whether a row was removed.
    pub fn remove_row(&mut self, id: EntryId) -> (r: bool)
        ensures
            row_removed(old(self)@, id, final(self)@, r),
    {
        proof {
            use_type_invariant(&*self);
            self.lemma_view();
        }
        let mut p: usize = 0;
        while p < self.rows.len() && self.rows[p].id != id
            invariant
                p <= self.rows@.len(),
                forall|q: int| 0 <= q < p ==> (#[trigger] self.rows@[q]).id != id,
            decreases self.rows@.len() - p,
        {
            p += 1;
        }
        if p == self.rows.len() {
            proof {
                assert(forall|q: int| 0 <= q < p ==> #[trigger] self@.rows[q].id == self.rows@[q].id);
            }
            return false;
        }
        let ghost old_rows = self.rows@;
        let max_workspace_name_len = self.max_workspace_name_len;
        let max_devcontainer_name_len = self.max_devcontainer_name_len;
        let (mut rows, _) = self.take_parts();
        proof {
            lemma_remove_keeps(row_views(old_rows), p as int);
            assert(row_views(old_rows.remove(p as int)) =~= row_views(old_rows).remove(p as int));
        }
        rows.remove(p);
        let mut keys: Vec<Option<i128>> = Vec::new();
        let mut i: usize = 0;
        while i < rows.len()
            invariant
                i <= rows@.len(),
                keys@.len() == i,
                forall|j: int| 0 <= j < i ==> #[trigger] keys@[j] == score_key(rows@[j].search_score),
            decreases rows@.len() - i,
        {
            keys.push(
                match rows[i].search_score {
                    Some(n) => Some(n as i128),
                    None => None,
                },
            );
            i += 1;
        }
        assert(keys@ =~= score_keys(rows@));
        let order = rank_desc(&keys);
        *self = TableData { rows, order, max_workspace_name_len, max_devcontainer_name_len };
        proof {
            self.lemma_view();
            assert(row_views(old_rows.remove(p as int)) =~= row_views(old_rows).remove(p as int));
            assert(row_views(old_rows)[p as int].id == id);
            assert(forall|q: int| 0 <= q < p ==> #[trigger] row_views(old_rows)[q].id == old_rows[q].id);
        }
        true
    }

    /// The number of visible rows.
    pub fn visible_len(&self) -> (r: usize)
        ensures
            r == self@.visible().len(),
    {
        self.order.len()
    }

    /// The visible row at display position `a`.
    pub fn visible_row(&self, a: usize) -> (r: &TableRow)
        requires
            a < self@.visible().len(),
        ensures
            r@ == self@.visible()[a as int],
    {
        proof {
            use_type_invariant(self);
            self.lemma_view();
        }
        &self.rows[self.order[a]]
    }

    /// The visible rows, in display order.
    pub fn as_rows_full(&self) -> (r: Vec<&TableRow>)
        ensures
            r@.len() == self@.visible().len(),
            forall|a: int| 0 <= a < r@.len() ==> (#[trigger] r@[a])@ == self@.visible()[a],
    {
        proof {
            use_type_invariant(self);
            self.lemma_view();
        }
        let mut r: Vec<&TableRow> = Vec::new();
        let mut a: usize = 0;
        while a < self.order.len()
            invariant
                forall|b: int| 0 <= b < self.order@.len() ==> #[trigger] self.order@[b] < self.rows@.len(),
                a <= self.order@.len(),
                r@.len() == a,
                forall|b: int| 0 <= b < a ==> (#[trigger] r@[b])@ == self@.visible()[b],
            decreases self.order@.len() - a,
        {
            r.push(&self.rows[self.order[a]]);
            a += 1;
        }
        r
    }

    /// The display position of the visible row of record `id`, if it is visible.
    pub fn visible_position(&self, id: EntryId) -> (r: Option<usize>)
        ensures
            r matches Some(a) ==> a < self@.visible().len() && self@.visible()[a as int].id == id
                && forall|b: int| 0 <= b < a ==> (#[trigger] self@.visible()[b]).id != id,
            r is None ==> forall|b: int|
                0 <= b < self@.visible().len() ==> (#[trigger] self@.visible()[b]).id != id,
    {
        proof {
            use_type_invariant(self);
            self.lemma_view();
        }
        let mut a: usize = 0;
        while a < self.order.len()
            invariant
                forall|b: int| 0 <= b < self.order@.len() ==> #[trigger] self.order@[b] < self.rows@.len(),
                a <= self.order@.len(),
                forall|b: int| 0 <= b < a ==> (#[trigger] self@.visible()[b]).id != id,
            decreases self.order@.len() - a,
        {
            if self.rows[self.order[a]].id == id {
                return Some(a);
            }
            a += 1;
        }
        None
    }

    /// The longest workspace name, in characters, when the table was built.
    pub fn max_workspace_name_len(&self) -> (r: Option<usize>)
        ensures
            opt_nat(r) == self@.max_workspace_name_len,
    {
        self.max_workspace_name_len
    }

    /// The longest container name, in characters, when the table was built.
    pub fn max_devcontainer_name_len(&self) -> (r: Option<usize>)
        ensures
            opt_nat(r) == self@.max_devcontainer_name_len,
    {
        self.max_devcontainer_name_len
    }
}

/// The workspace names of rows.
pub open spec fn workspace_names(rows: Seq<RowView>) -> Seq<Seq<char>> {
    rows.map_values(|r: RowView| r.entry.workspace_name)
}

/// The container names of rows, empty where there is none.
pub open spec fn container_names(rows: Seq<RowView>) -> Seq<Seq<char>> {
    rows.map_values(|r: RowView| container_text(r.entry))
}

fn container_name_len(e: &Entry) -> (r: usize)
    ensures
        r == container_text(e@).len(),
{
    match &e.dev_container_name {
        Some(n) => n.as_str().unicode_len(),
        None => 0,
    }
}

fn longest_workspace_name(rows: &Vec<TableRow>) -> (r: Option<usize>)
    ensures
        opt_nat(r) == longest(workspace_names(row_views(rows@))),
{
    let ghost names = workspace_names(row_views(rows@));
    let mut m: Option<usize> = None;
    let mut a: usize = 0;
    while a < rows.len()
        invariant
            names == workspace_names(row_views(rows@)),
            a <= rows@.len(),
            opt_nat(m) == longest(names.take(a as int)),
        decreases rows@.len() - a,
    {
        let len = rows[a].entry.workspace_name.as_str().unicode_len();
        proof {
            assert(names.take(a + 1).drop_last() =~= names.take(a as int));
            assert(names.take(a + 1).last() == rows@[a as int].entry.workspace_name@);
        }
        m = match m {
            Some(x) if x >= len => Some(x),
            _ => Some(len),
        };
        a += 1;
    }
    assert(names.take(rows@.len() as int) =~= names);
    m
}

fn longest_container_name(rows: &Vec<TableRow>) -> (r: Option<usize>)
    ensures
        opt_nat(r) == longest(container_names(row_views(rows@))),
{
    let ghost names = container_names(row_views(rows@));
    let mut m: Option<usize> = None;
    let mut a: usize = 0;
    while a < rows.len()
        invariant
            names == container_names(row_views(rows@)),
            a <= rows@.len(),
            opt_nat(m) == longest(names.take(a as int)),
        decreases rows@.len() - a,
    {
        let len = container_name_len(&rows[a].entry);
        proof {
            assert(names.take(a + 1).drop_last() =~= names.take(a as int));
            assert(names.take(a + 1).last() == container_text(rows@[a as int].entry@));
        }
        m = match m {
            Some(x) if x >= len => Some(x),
            _ => Some(len),
        };
        a += 1;
    }
    assert(names.take(rows@.len() as int) =~= names);
    m
}

/// Filtering a table built from the history with any query and then resetting the
/// filter gives back the table as it was built: the same rows in the same order of
/// recency, all visible with the neutral score.
pub proof fn lemma_reset_restores_build(
    items: Seq<(EntryId, Entry)>,
    built: TableView,
    query: Seq<char>,
    with_query: TableView,
    reset: TableView,
)
    requires
        built_from(items, built),
        filtered(built, query, with_query),
        unfiltered(with_query, reset),
    ensures
        reset.rows == built.rows,
        reset.order == built.order,
        reset.visible() == built.visible(),
{
    assert(reset.rows =~= built.rows) by {
        assert forall|i: int| 0 <= i < reset.rows.len() implies #[trigger] reset.rows[i] == built.rows[i] by {
            assert(with_query.rows[i].id == built.rows[i].id);
        }
    }
}

/// The empty query hides no row (all rows are visible), and a row that some query
/// lets through is let through by the empty query too.
pub proof fn lemma_filter_monotone(
    before: TableView,
    with_query: TableView,
    with_empty: TableView,
    query: Seq<char>,
)
    requires
        filtered(before, query, with_query),
        filtered(before, Seq::empty(), with_empty),
    ensures
        with_empty.visible().len() == with_empty.rows.len(),
        forall|i: int| 0 <= i < with_empty.rows.len() ==> with_empty.order.contains(#[trigger] (i as usize)),
        forall|a: int|
            0 <= a < with_query.order.len() ==> with_empty.order.contains(#[trigger] with_query.order[a]),
        forall|a: int|
            0 <= a < with_query.visible().len() ==> exists|b: int|
                0 <= b < with_empty.visible().len() && (#[trigger] with_empty.visible()[b]).id == (
                #[trigger] with_query.visible()[a]).id,
{
    let ek = with_empty.rows.map_values(|r: RowView| score_key(r.score));
    let qk = with_query.rows.map_values(|r: RowView| score_key(r.score));
    assert forall|i: int| 0 <= i < with_empty.rows.len() implies with_empty.order.contains(#[trigger] (i as usize)) by {
        assert(ek[i] is Some);
    }
    assert forall|a: int| 0 <= a < with_query.order.len() implies with_empty.order.contains(
        #[trigger] with_query.order[a],
    ) by {
        let p = with_query.order[a];
        assert(p < qk.len());
        assert(ek[p as int] is Some);
    }
    assert forall|a: int| 0 <= a < with_query.visible().len() implies exists|b: int|
        0 <= b < with_empty.visible().len() && (#[trigger] with_empty.visible()[b]).id == (
        #[trigger] with_query.visible()[a]).id by {
        let p = with_query.order[a];
        assert(p < qk.len());
        assert(ek[p as int] is Some);
        let b = choose|b: int| 0 <= b < with_empty.order.len() && with_empty.order[b] == p;
        assert(with_empty.visible()[b].id == with_empty.rows[p as int].id);
        assert(with_query.visible()[a].id == with_query.rows[p as int].id);
        assert(with_empty.rows[p as int].id == before.rows[p as int].id);
    }
}

} // verus!

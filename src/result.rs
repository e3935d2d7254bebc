//! The results of `execute` and `query`, computed from the decoded tokens.
use crate::column_data::ColumnData;
use crate::error::{Error, ErrorView};
use crate::column_data::ColumnValue;
use crate::token::{
    metas_view, values_view, ColumnMeta, ColumnMetaView, Done, ReceivedToken, TokenView,
    tokens_view, DONE_COUNT,
};
use vstd::prelude::*;

verus! {

/// Whether a `Done*` status carries a valid row count.
pub open spec fn counted(d: Done) -> bool {
    d.status & DONE_COUNT != 0
}

/// The row count a token reports, if any.
pub open spec fn token_count(t: TokenView) -> Option<u64> {
    match t {
        TokenView::Done(d) => if counted(d) { Some(d.rows) } else { None },
        TokenView::DoneProc(d) => if counted(d) { Some(d.rows) } else { None },
        TokenView::DoneInProc(d) => if counted(d) { Some(d.rows) } else { None },
        _ => None,
    }
}

/// The row counts of a token sequence, in order.
pub open spec fn counts(ts: Seq<TokenView>) -> Seq<u64>
    decreases ts.len(),
{
    if ts.len() == 0 {
        Seq::empty()
    } else {
        match token_count(ts.last()) {
            Some(n) => counts(ts.drop_last()).push(n),
            None => counts(ts.drop_last()),
        }
    }
}

pub open spec fn sum(s: Seq<u64>) -> int
    decreases s.len(),
{
    if s.len() == 0 {
        0
    } else {
        sum(s.drop_last()) + s.last()
    }
}

/// The error a token reports, if it is a server error.
pub open spec fn token_error(t: TokenView) -> Option<ErrorView> {
    match t {
        TokenView::Error(m) => Some(ErrorView::Server(m)),
        _ => None,
    }
}

/// The first server error among the tokens.
pub open spec fn first_error(ts: Seq<TokenView>) -> Option<ErrorView>
    decreases ts.len(),
{
    if ts.len() == 0 {
        None
    } else {
        match first_error(ts.drop_last()) {
            Some(e) => Some(e),
            None => token_error(ts.last()),
        }
    }
}

/// The affected-row counts of an `execute`, one per counted statement.
pub struct ExecuteResult {
    rows_affected: Vec<u64>,
}

impl ExecuteResult {
    pub closed spec fn counts(&self) -> Seq<u64> {
        self.rows_affected@
    }

    pub open spec fn wf(&self) -> bool {
        sum(self.counts()) <= u64::MAX
    }

    /// Collects the row counts of every `Done*` token that has its count bit
    /// set. A server error token makes the whole operation fail with that
    /// error; counts whose total does not fit a `u64` are a protocol
    /// violation.
    pub fn from_tokens(tokens: &Vec<ReceivedToken>) -> (r: Result<ExecuteResult, Error>)
        ensures
            ({
                let ts = tokens_view(tokens@);
                match first_error(ts) {
                    Some(e) => r matches Err(x) && x@ == e,
                    None => if sum(counts(ts)) <= u64::MAX {
                        r matches Ok(x) && x.counts() == counts(ts) && x.wf()
                    } else {
                        r == Err::<ExecuteResult, Error>(Error::ProtocolViolation)
                    },
                }
            }),
    {
        let ghost ts = tokens_view(tokens@);
        let mut rows: Vec<u64> = Vec::new();
        let mut total: u64 = 0;
        let mut overflow = false;
        let mut i: usize = 0;
        while i < tokens.len()
            invariant
                i <= tokens@.len(),
                ts == tokens_view(tokens@),
                first_error(ts.subrange(0, i as int)) is None,
                rows@ == counts(ts.subrange(0, i as int)),
                !overflow ==> total == sum(rows@),
                overflow ==> sum(rows@) > u64::MAX,
            decreases tokens@.len() - i,
        {
            let ghost pre = ts.subrange(0, i as int);
            proof {
                assert(ts.subrange(0, i + 1).drop_last() =~= pre);
                assert(ts.subrange(0, i + 1).last() == tokens@[i as int]@);
            }
            let n: Option<u64> = match &tokens[i] {
                ReceivedToken::Error(m) => {
                    proof {
                        lemma_first_error_prefix(ts, i + 1);
                    }
                    return Err(Error::Server(m.copy()));
                },
                ReceivedToken::Done(d) => if d.status & DONE_COUNT != 0 { Some(d.rows) } else { None },
                ReceivedToken::DoneProc(d) => if d.status & DONE_COUNT != 0 { Some(d.rows) } else { None },
                ReceivedToken::DoneInProc(d) => if d.status & DONE_COUNT != 0 { Some(d.rows) } else { None },
                _ => None,
            };
            if let Some(n) = n {
                rows.push(n);
                if !overflow {
                    if total > u64::MAX - n {
                        overflow = true;
                    } else {
                        total = total + n;
                    }
                }
                proof {
                    assert(rows@.drop_last() =~= counts(pre));
                }
            }
            i += 1;
        }
        proof {
            assert(ts.subrange(0, i as int) =~= ts);
        }
        if overflow {
            return Err(Error::ProtocolViolation);
        }
        Ok(ExecuteResult { rows_affected: rows })
    }

    /// The counts, one per counted statement, in order.
    pub fn rows_affected(&self) -> (r: &[u64])
        ensures
            r@ == self.counts(),
    {
        self.rows_affected.as_slice()
    }

    /// The sum of all counts.
    pub fn total(&self) -> (r: u64)
        requires
            self.wf(),
        ensures
            r == sum(self.counts()),
    {
        let mut t: u64 = 0;
        let mut i: usize = 0;
        while i < self.rows_affected.len()
            invariant
                i <= self.counts().len(),
                self.wf(),
                t == sum(self.counts().subrange(0, i as int)),
            decreases self.counts().len() - i,
        {
            proof {
                let s = self.counts();
                assert(s.subrange(0, i + 1).drop_last() =~= s.subrange(0, i as int));
                lemma_sum_prefix(s, i + 1);
            }
            t = t + self.rows_affected[i];
            i += 1;
        }
        assert(self.counts().subrange(0, i as int) =~= self.counts());
        t
    }
}

/// An error in a prefix is the first error of the whole sequence.
pub proof fn lemma_first_error_prefix(s: Seq<TokenView>, i: int)
    requires
        0 <= i <= s.len(),
        first_error(s.subrange(0, i)) is Some,
    ensures
        first_error(s) == first_error(s.subrange(0, i)),
    decreases s.len(),
{
    if i < s.len() {
        assert(s.drop_last().subrange(0, i) =~= s.subrange(0, i));
        lemma_first_error_prefix(s.drop_last(), i);
    } else {
        assert(s.subrange(0, i) =~= s);
    }
}

/// A prefix of counts never sums to more than all of them.
pub proof fn lemma_sum_prefix(s: Seq<u64>, i: int)
    requires
        0 <= i <= s.len(),
    ensures
        sum(s.subrange(0, i)) <= sum(s),
    decreases s.len(),
{
    if i < s.len() {
        assert(s.drop_last().subrange(0, i) =~= s.subrange(0, i));
        lemma_sum_prefix(s.drop_last(), i);
    } else {
        assert(s.subrange(0, i) =~= s);
    }
}

/// What a query stream hands out: the columns of a new result set, or a row.
#[derive(Debug, Clone, PartialEq, Eq)]
pub enum QueryItem {
    Metadata(Vec<ColumnMeta>),
    Row(Vec<ColumnData>),
}

pub enum QueryItemView {
    Metadata(Seq<ColumnMetaView>),
    Row(Seq<ColumnValue>),
}

impl View for QueryItem {
    type V = QueryItemView;

    open spec fn view(&self) -> QueryItemView {
        match self {
            QueryItem::Metadata(m) => QueryItemView::Metadata(metas_view(m@)),
            QueryItem::Row(v) => QueryItemView::Row(values_view(v@)),
        }
    }
}

pub open spec fn item_view(r: Result<QueryItem, Error>) -> Result<QueryItemView, ErrorView> {
    match r {
        Ok(i) => Ok(i@),
        Err(e) => Err(e@),
    }
}

/// What a token hands to the caller of a query: result sets, rows and
/// server errors; the other tokens are consumed silently.
pub open spec fn token_item(t: TokenView) -> Option<Result<QueryItemView, ErrorView>> {
    match t {
        TokenView::NewResultset(cs) => Some(Ok(QueryItemView::Metadata(cs))),
        TokenView::Row(vs) => Some(Ok(QueryItemView::Row(vs))),
        TokenView::Error(m) => Some(Err(ErrorView::Server(m))),
        _ => None,
    }
}

/// Everything a query stream over `ts` hands out, in order.
pub open spec fn stream_items(ts: Seq<TokenView>) -> Seq<Result<QueryItemView, ErrorView>>
    decreases ts.len(),
{
    if ts.len() == 0 {
        Seq::empty()
    } else {
        match token_item(ts.last()) {
            Some(x) => stream_items(ts.drop_last()).push(x),
            None => stream_items(ts.drop_last()),
        }
    }
}

/// Number of new result sets among the tokens.
pub open spec fn resultset_count(ts: Seq<TokenView>) -> nat
    decreases ts.len(),
{
    if ts.len() == 0 {
        0
    } else {
        resultset_count(ts.drop_last()) + if ts.last() is NewResultset { 1nat } else { 0nat }
    }
}

/// Number of metadata items among what a stream hands out.
pub open spec fn metadata_count(items: Seq<Result<QueryItemView, ErrorView>>) -> nat
    decreases items.len(),
{
    if items.len() == 0 {
        0
    } else {
        metadata_count(items.drop_last()) + if items.last() matches Ok(QueryItemView::Metadata(_)) {
            1nat
        } else {
            0nat
        }
    }
}

/// A query over a response with N result sets hands out exactly N
/// metadata items, one for each result set.
pub proof fn lemma_one_metadata_per_resultset(ts: Seq<TokenView>)
    ensures
        metadata_count(stream_items(ts)) == resultset_count(ts),
    decreases ts.len(),
{
    if ts.len() > 0 {
        lemma_one_metadata_per_resultset(ts.drop_last());
        match token_item(ts.last()) {
            Some(x) => {
                assert(stream_items(ts).drop_last() =~= stream_items(ts.drop_last()));
            },
            None => {},
        }
    }
}

/// The stream of results of a query, over the tokens of its response.
pub struct QueryStream {
    tokens: Vec<ReceivedToken>,
}

impl QueryStream {
    pub closed spec fn remaining(&self) -> Seq<TokenView> {
        tokens_view(self.tokens@)
    }

    pub fn new(tokens: Vec<ReceivedToken>) -> (r: QueryStream)
        ensures
            r.remaining() == tokens_view(tokens@),
    {
        QueryStream { tokens }
    }

    /// Hands out the next item: the columns of a new result set, a row, or
    /// a server error. `None` once the tokens are exhausted.
    pub fn next(&mut self) -> (r: Option<Result<QueryItem, Error>>)
        ensures
            ({
                let items = stream_items(old(self).remaining());
                &&& items.len() == 0 ==> r is None && stream_items(final(self).remaining()).len() == 0
                &&& items.len() > 0 ==> (r matches Some(x) && item_view(x) == items[0]
                    && stream_items(final(self).remaining()) == items.drop_first())
            }),
    {
        let ghost start = tokens_view(self.tokens@);
        assert(start == old(self).remaining());
        let ghost mut skipped: Seq<TokenView> = Seq::empty();
        while self.tokens.len() > 0
            invariant
                start == old(self).remaining(),
                start == skipped + tokens_view(self.tokens@),
                stream_items(skipped).len() == 0,
            decreases self.tokens@.len(),
        {
            let ghost before = tokens_view(self.tokens@);
            let t = self.tokens.remove(0);
            let ghost tv = t@;
            let ghost rest = tokens_view(self.tokens@);
            proof {
                assert(rest =~= before.drop_first());
                assert(before[0] == tv);
                assert(before =~= seq![tv] + rest);
                lemma_items_concat(seq![tv], rest);
                lemma_items_concat(skipped, before);
                lemma_single_item(tv);
                let all = stream_items(start);
                assert(all =~= stream_items(seq![tv]) + stream_items(rest));
                if let Some(x) = token_item(tv) {
                    assert(all =~= seq![x] + stream_items(rest));
                    assert(all[0] == x);
                    assert(all.drop_first() =~= stream_items(rest));
                }
            }
            match t {
                ReceivedToken::NewResultset(cs) => {
                    let x: Result<QueryItem, Error> = Ok(QueryItem::Metadata(cs));
                    assert(token_item(tv) == Some(item_view(x)));
                    assert(stream_items(start).len() > 0);
                    assert(item_view(x) == stream_items(start)[0]);
                    assert(stream_items(tokens_view(self.tokens@)) == stream_items(start).drop_first());
                    return Some(x);
                },
                ReceivedToken::Row(vs) => {
                    let x: Result<QueryItem, Error> = Ok(QueryItem::Row(vs));
                    assert(token_item(tv) == Some(item_view(x)));
                    assert(stream_items(start).len() > 0);
                    assert(item_view(x) == stream_items(start)[0]);
                    assert(stream_items(tokens_view(self.tokens@)) == stream_items(start).drop_first());
                    return Some(x);
                },
                ReceivedToken::Error(m) => {
                    let x: Result<QueryItem, Error> = Err(Error::Server(m));
                    assert(token_item(tv) == Some(item_view(x)));
                    assert(stream_items(start).len() > 0);
                    assert(item_view(x) == stream_items(start)[0]);
                    assert(stream_items(tokens_view(self.tokens@)) == stream_items(start).drop_first());
                    return Some(x);
                },
                _ => {
                    proof {
                        lemma_items_concat(skipped, seq![tv]);
                        skipped = skipped + seq![tv];
                        assert(start =~= skipped + tokens_view(self.tokens@));
                    }
                },
            }
        }
        proof {
            assert(start =~= skipped);
        }
        None
    }

    /// Moves past everything before the first result set, so that the next
    /// item handed out is its columns. A server error met on the way is
    /// returned, and stays consumed.
    pub fn forward_to_metadata(&mut self) -> (r: Result<(), Error>)
        ensures
            ({
                let ts = old(self).remaining();
                let k = first_item_index(ts);
                &&& stops_at_error(ts, k) ==> (r matches Err(x) && x@ == item_error(ts[k]))
                    && final(self).remaining() == ts.subrange(k + 1, ts.len() as int)
                &&& !stops_at_error(ts, k) ==> r is Ok && final(self).remaining() == ts.subrange(
                    k,
                    ts.len() as int,
                )
            }),
    {
        let ghost ts = tokens_view(self.tokens@);
        assert(ts == old(self).remaining());
        let ghost mut k: int = 0;
        assert(ts.subrange(0, ts.len() as int) =~= ts);
        while self.tokens.len() > 0
            invariant
                ts == old(self).remaining(),
                0 <= k <= ts.len(),
                tokens_view(self.tokens@) == ts.subrange(k, ts.len() as int),
                forall|j: int| 0 <= j < k ==> token_item(#[trigger] ts[j]) is None,
            decreases self.tokens@.len(),
        {
            proof {
                assert(tokens_view(self.tokens@).len() == self.tokens@.len());
                assert(ts.subrange(k, ts.len() as int)[0] == ts[k]);
                assert(tokens_view(self.tokens@)[0] == self.tokens@[0]@);
            }
            match &self.tokens[0] {
                ReceivedToken::NewResultset(_) | ReceivedToken::Row(_) => {
                    proof {
                        lemma_first_item_index(ts, k);
                        assert(!stops_at_error(ts, k));
                    }
                    return Ok(());
                },
                ReceivedToken::Error(_) => {
                    let ghost before = self.tokens@;
                    let t = self.tokens.remove(0);
                    let e = match t {
                        ReceivedToken::Error(m) => Error::Server(m),
                        _ => Error::ProtocolViolation,
                    };
                    proof {
                        lemma_first_item_index(ts, k);
                        assert(tokens_view(self.tokens@) =~= tokens_view(before).drop_first());
                        assert(tokens_view(self.tokens@) =~= ts.subrange(k + 1, ts.len() as int));
                    }
                    return Err(e);
                },
                _ => {},
            }
            let ghost before = self.tokens@;
            let _ = self.tokens.remove(0);
            proof {
                assert(tokens_view(self.tokens@) =~= tokens_view(before).drop_first());
                assert(tokens_view(self.tokens@) =~= ts.subrange(k + 1, ts.len() as int));
                k = k + 1;
            }
        }
        proof {
            lemma_first_item_index(ts, k);
            assert(!stops_at_error(ts, k));
        }
        Ok(())
    }
}

/// Whether the token at `k` is a server error.
pub open spec fn stops_at_error(ts: Seq<TokenView>, k: int) -> bool {
    0 <= k < ts.len() && ts[k] is Error
}

pub open spec fn item_error(t: TokenView) -> ErrorView {
    match t {
        TokenView::Error(m) => ErrorView::Server(m),
        _ => ErrorView::ProtocolViolation,
    }
}

/// The rows of the first result set among `items` (`started` once its
/// columns have been passed), or the first error met before its end.
pub open spec fn first_result(items: Seq<Result<QueryItemView, ErrorView>>, started: bool) -> Result<
    Seq<Seq<ColumnValue>>,
    ErrorView,
>
    decreases items.len(),
{
    if items.len() == 0 {
        Ok(Seq::empty())
    } else {
        match items[0] {
            Err(e) => Err(e),
            Ok(QueryItemView::Metadata(_)) => if started {
                Ok(Seq::empty())
            } else {
                first_result(items.drop_first(), true)
            },
            Ok(QueryItemView::Row(r)) => match first_result(items.drop_first(), started) {
                Ok(rs) => Ok(seq![r] + rs),
                Err(e) => Err(e),
            },
        }
    }
}

pub open spec fn prepend_rows(acc: Seq<Seq<ColumnValue>>, r: Result<Seq<Seq<ColumnValue>>, ErrorView>) -> Result<
    Seq<Seq<ColumnValue>>,
    ErrorView,
> {
    match r {
        Ok(rs) => Ok(acc + rs),
        Err(e) => Err(e),
    }
}

pub open spec fn rows_view(rows: Seq<Vec<ColumnData>>) -> Seq<Seq<ColumnValue>> {
    rows.map_values(|r: Vec<ColumnData>| values_view(r@))
}

impl QueryStream {
    /// The rows of the first result set; a server error met before its end
    /// is returned instead.
    pub fn into_first_result(self) -> (r: Result<Vec<Vec<ColumnData>>, Error>)
        ensures
            match first_result(stream_items(self.remaining()), false) {
                Ok(rs) => r matches Ok(v) && rows_view(v@) == rs,
                Err(e) => r matches Err(x) && x@ == e,
            },
    {
        let ghost all = stream_items(self.remaining());
        let mut stream = self;
        let mut rows: Vec<Vec<ColumnData>> = Vec::new();
        let mut started = false;
        proof {
            match first_result(all, false) {
                Ok(rs) => assert(rows_view(rows@) + rs =~= rs),
                Err(_) => {},
            }
        }
        loop
            invariant
                all == stream_items(self.remaining()),
                first_result(all, false) == prepend_rows(
                    rows_view(rows@),
                    first_result(stream_items(stream.remaining()), started),
                ),
            decreases stream_items(stream.remaining()).len(),
        {
            let ghost cur = stream_items(stream.remaining());
            match stream.next() {
                None => {
                    assert(cur.len() == 0);
                    assert(first_result(cur, started) == Ok::<Seq<Seq<ColumnValue>>, ErrorView>(Seq::empty()));
                    assert(rows_view(rows@) + Seq::<Seq<ColumnValue>>::empty() =~= rows_view(rows@));
                    return Ok(rows);
                },
                Some(Err(e)) => {
                    assert(cur.len() > 0 && cur[0] == Err::<QueryItemView, ErrorView>(e@));
                    assert(first_result(cur, started) == Err::<Seq<Seq<ColumnValue>>, ErrorView>(e@));
                    return Err(e);
                },
                Some(Ok(QueryItem::Metadata(_))) => {
                    if started {
                        assert(rows_view(rows@) + Seq::<Seq<ColumnValue>>::empty() =~= rows_view(rows@));
                        return Ok(rows);
                    }
                    started = true;
                },
                Some(Ok(QueryItem::Row(row))) => {
                    proof {
                        let rest = first_result(cur.drop_first(), started);
                        match rest {
                            Ok(rs) => {
                                assert(rows_view(rows@.push(row)) =~= rows_view(rows@).push(values_view(row@)));
                                assert(rows_view(rows@) + (seq![values_view(row@)] + rs) =~= rows_view(
                                    rows@.push(row),
                                ) + rs);
                            },
                            Err(_) => {},
                        }
                    }
                    rows.push(row);
                },
            }
        }
    }

    /// The first row of the first result set, if there is one.
    pub fn into_row(self) -> (r: Result<Option<Vec<ColumnData>>, Error>)
        ensures
            match first_result(stream_items(self.remaining()), false) {
                Ok(rs) => r matches Ok(o) && (rs.len() == 0 ==> o is None) && (rs.len() > 0 ==> (
                o matches Some(row) && values_view(row@) == rs[0])),
                Err(e) => r matches Err(x) && x@ == e,
            },
    {
        let mut rows = self.into_first_result()?;
        if rows.len() == 0 {
            Ok(None)
        } else {
            let ghost v = rows@;
            let row = rows.remove(0);
            assert(rows_view(v)[0] == values_view(v[0]@));
            Ok(Some(row))
        }
    }
}

/// Index of the first token that hands something out, or the length.
pub open spec fn first_item_index(ts: Seq<TokenView>) -> int
    decreases ts.len(),
{
    if ts.len() == 0 {
        0
    } else if token_item(ts[0]) is Some {
        0
    } else {
        1 + first_item_index(ts.drop_first())
    }
}

proof fn lemma_first_item_index(ts: Seq<TokenView>, k: int)
    requires
        0 <= k <= ts.len(),
        forall|j: int| 0 <= j < k ==> token_item(#[trigger] ts[j]) is None,
        k == ts.len() || token_item(ts[k]) is Some,
    ensures
        first_item_index(ts) == k,
    decreases k,
{
    if k > 0 {
        assert forall|j: int| 0 <= j < k - 1 implies token_item(#[trigger] ts.drop_first()[j]) is None by {
            assert(ts.drop_first()[j] == ts[j + 1]);
        }
        if k < ts.len() {
            assert(ts.drop_first()[k - 1] == ts[k]);
        }
        lemma_first_item_index(ts.drop_first(), k - 1);
        assert(token_item(ts[0]) is None);
    }
}

proof fn lemma_single_item(t: TokenView)
    ensures
        stream_items(seq![t]) == match token_item(t) {
            Some(x) => seq![x],
            None => Seq::<Result<QueryItemView, ErrorView>>::empty(),
        },
{
    assert(seq![t].drop_last() =~= Seq::<TokenView>::empty());
    assert(seq![t].last() == t);
    assert(stream_items(Seq::<TokenView>::empty()) =~= Seq::<Result<QueryItemView, ErrorView>>::empty());
    match token_item(t) {
        Some(x) => assert(Seq::<Result<QueryItemView, ErrorView>>::empty().push(x) =~= seq![x]),
        None => {},
    }
}

pub proof fn lemma_items_concat(a: Seq<TokenView>, b: Seq<TokenView>)
    ensures
        stream_items(a + b) == stream_items(a) + stream_items(b),
    decreases b.len(),
{
    if b.len() == 0 {
        assert(a + b =~= a);
        assert(stream_items(a) + stream_items(b) =~= stream_items(a));
    } else {
        assert((a + b).drop_last() =~= a + b.drop_last());
        lemma_items_concat(a, b.drop_last());
        match token_item(b.last()) {
            Some(x) => {
                assert(stream_items(a) + stream_items(b) =~= (stream_items(a) + stream_items(b.drop_last())).push(x));
            },
            None => {},
        }
    }
}

} // verus!

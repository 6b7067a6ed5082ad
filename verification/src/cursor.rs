//! The cursor fetcher's parsing and reduction rules.
//!
//! The indexing-status service reports one row per indexing worker, each
//! carrying a block number encoded either as a native integer or as a
//! decimal string; the two encodings are equivalent. The indexed head of
//! a tick is the maximum over all readable rows — the furthest-progressed
//! worker determines overall progress — and a response with no readable
//! row is a failure, never a height of zero.

use vstd::prelude::*;
use vstd::seq_lib::group_to_multiset_ensures;

use crate::codec::{dec_seq_value, from_dec_str, is_dec_string};
use crate::errors::{FetchError, JsonShapeError};
use crate::height::{height_limit, Height};

verus! {

/// One reported indexing-progress record: its block-number field, in
/// whichever encoding the service used.
#[derive(Clone, Debug)]
pub enum CursorRow {
    /// The block number came as a native integer.
    Numeric(u64),
    /// The block number came as a string.
    Text(String),
    /// The field was absent or of some other shape.
    Unreadable,
}

/// The mathematical content of a [`CursorRow`].
pub enum CursorRowView {
    Numeric(u64),
    Text(Seq<char>),
    Unreadable,
}

impl View for CursorRow {
    type V = CursorRowView;

    open spec fn view(&self) -> CursorRowView {
        match self {
            CursorRow::Numeric(u) => CursorRowView::Numeric(*u),
            CursorRow::Text(s) => CursorRowView::Text(s@),
            CursorRow::Unreadable => CursorRowView::Unreadable,
        }
    }
}

impl DeepView for CursorRow {
    type V = CursorRowView;

    open spec fn deep_view(&self) -> CursorRowView {
        self.view()
    }
}

/// The block height a row reports, if its encoding can be read as one.
pub open spec fn row_height(r: CursorRowView) -> Option<int> {
    match r {
        CursorRowView::Numeric(u) => Some(u as int),
        CursorRowView::Text(s) => if is_dec_string(s) && dec_seq_value(s) < height_limit() {
            Some(dec_seq_value(s))
        } else {
            None
        },
        CursorRowView::Unreadable => None,
    }
}

/// The two transit encodings of a block number are equivalent: a row
/// carrying the decimal rendering of a value normalizes to the same
/// height as a row carrying the value itself.
pub proof fn lemma_encodings_equivalent(v: u64)
    ensures
        row_height(CursorRowView::Text(crate::codec::dec_digits_of(v as nat))) == row_height(
            CursorRowView::Numeric(v),
        ),
{
    crate::codec::lemma_dec_encoding_round_trips(v as nat);
}

/// The reduction of a row collection to the indexed head: the maximum of
/// the readable rows' heights, or nothing when no row is readable.
pub open spec fn spec_reduce(rows: Seq<CursorRowView>) -> Option<int>
    decreases rows.len(),
{
    if rows.len() == 0 {
        None
    } else {
        match (spec_reduce(rows.drop_last()), row_height(rows.last())) {
            (Option::None, v) => v,
            (Option::Some(m), Option::None) => Some(m),
            (Option::Some(m), Option::Some(v)) => Some(
                if v > m {
                    v
                } else {
                    m
                },
            ),
        }
    }
}

/// The reduction yields nothing exactly when no row is readable, and
/// otherwise yields a readable row's height that no readable row
/// exceeds.
pub proof fn lemma_reduce_props(rows: Seq<CursorRowView>)
    ensures
        spec_reduce(rows) is None <==> (forall|i: int|
            0 <= i < rows.len() ==> #[trigger] row_height(rows[i]) is None),
        spec_reduce(rows) matches Some(m) ==> exists|i: int|
            0 <= i < rows.len() && #[trigger] row_height(rows[i]) == Some(m),
        spec_reduce(rows) matches Some(m) ==> forall|i: int|
            0 <= i < rows.len() && #[trigger] row_height(rows[i]) is Some ==> row_height(
                rows[i],
            )->0 <= m,
    decreases rows.len(),
{
    if rows.len() > 0 {
        lemma_reduce_props(rows.drop_last());
        assert(forall|i: int| 0 <= i < rows.len() - 1 ==> rows.drop_last()[i] == rows[i]);
        if spec_reduce(rows) is Some {
            let m = spec_reduce(rows)->0;
            if spec_reduce(rows.drop_last()) is None {
                assert(row_height(rows[rows.len() - 1]) == Some(m));
            } else {
                let m0 = spec_reduce(rows.drop_last())->0;
                if row_height(rows.last()) is Some && row_height(rows.last())->0 > m0 {
                    assert(row_height(rows[rows.len() - 1]) == Some(m));
                } else {
                    let j = choose|j: int|
                        0 <= j < rows.drop_last().len() && #[trigger] row_height(
                            rows.drop_last()[j],
                        ) == Some(m0);
                    assert(row_height(rows[j]) == Some(m));
                }
            }
        }
    }
}

/// Every element of a sequence occurs in any sequence with the same
/// multiset of elements.
proof fn lemma_multiset_member(a: Seq<CursorRowView>, b: Seq<CursorRowView>, i: int)
    requires
        a.to_multiset() == b.to_multiset(),
        0 <= i < a.len(),
    ensures
        exists|j: int| 0 <= j < b.len() && b[j] == a[i],
{
    broadcast use group_to_multiset_ensures;

    assert(a.contains(a[i]));
    assert(a.to_multiset().count(a[i]) > 0);
    assert(b.contains(a[i]));
}

/// Cursor reduction is order-independent: permuting the rows leaves the
/// reduced indexed head unchanged.
pub proof fn lemma_reduce_permutation(a: Seq<CursorRowView>, b: Seq<CursorRowView>)
    requires
        a.to_multiset() == b.to_multiset(),
    ensures
        spec_reduce(a) == spec_reduce(b),
{
    lemma_reduce_props(a);
    lemma_reduce_props(b);
    if spec_reduce(a) is None {
        assert forall|j: int| 0 <= j < b.len() implies #[trigger] row_height(b[j]) is None by {
            lemma_multiset_member(b, a, j);
        }
    } else if spec_reduce(b) is None {
        assert forall|i: int| 0 <= i < a.len() implies #[trigger] row_height(a[i]) is None by {
            lemma_multiset_member(a, b, i);
        }
    } else {
        let ma = spec_reduce(a)->0;
        let mb = spec_reduce(b)->0;
        let i = choose|i: int| 0 <= i < a.len() && #[trigger] row_height(a[i]) == Some(ma);
        lemma_multiset_member(a, b, i);
        let j = choose|j: int| 0 <= j < b.len() && #[trigger] row_height(b[j]) == Some(mb);
        lemma_multiset_member(b, a, j);
        assert(ma <= mb && mb <= ma);
    }
}

/// A row with no readable block number is skipped, not fatal: dropping
/// it leaves the reduced indexed head unchanged. Only when every row is
/// unreadable does the reduction yield nothing.
pub proof fn lemma_unreadable_row_skipped(rows: Seq<CursorRowView>, i: int)
    requires
        0 <= i < rows.len(),
        row_height(rows[i]) is None,
    ensures
        spec_reduce(rows.remove(i)) == spec_reduce(rows),
{
    let b = rows.remove(i);
    rows.remove_ensures(i);
    lemma_reduce_props(rows);
    lemma_reduce_props(b);
    assert(forall|j: int| 0 <= j < i ==> b[j] == rows[j]);
    assert(forall|j: int| i <= j < b.len() ==> b[j] == rows[j + 1]);
    if spec_reduce(rows) is None {
        assert forall|j: int| 0 <= j < b.len() implies #[trigger] row_height(b[j]) is None by {
            if j < i {
                assert(row_height(rows[j]) is None);
            } else {
                assert(row_height(rows[j + 1]) is None);
            }
        }
    } else {
        let m = spec_reduce(rows)->0;
        let k = choose|k: int| 0 <= k < rows.len() && #[trigger] row_height(rows[k]) == Some(m);
        if k < i {
            assert(row_height(b[k]) == Some(m));
        } else {
            assert(row_height(b[k - 1]) == Some(m));
        }
        assert(!(spec_reduce(b) is None));
        let m2 = spec_reduce(b)->0;
        let k2 = choose|k2: int| 0 <= k2 < b.len() && #[trigger] row_height(b[k2]) == Some(m2);
        if k2 < i {
            assert(row_height(rows[k2]) == Some(m2));
        } else {
            assert(row_height(rows[k2 + 1]) == Some(m2));
        }
        assert(m <= m2 && m2 <= m);
    }
}

/// Cursor reduction is idempotent: reporting every row twice leaves the
/// reduced indexed head unchanged.
pub proof fn lemma_reduce_duplication(a: Seq<CursorRowView>)
    ensures
        spec_reduce(a + a) == spec_reduce(a),
{
    lemma_reduce_props(a);
    lemma_reduce_props(a + a);
    assert(forall|i: int| 0 <= i < a.len() ==> (a + a)[i] == a[i]);
    assert(forall|i: int| a.len() <= i < 2 * a.len() ==> (a + a)[i] == a[i - a.len()]);
    if spec_reduce(a) is None {
        assert forall|i: int| 0 <= i < (a + a).len() implies #[trigger] row_height(
            (a + a)[i],
        ) is None by {
            if i < a.len() {
                assert(row_height(a[i]) is None);
            } else {
                assert(row_height(a[i - a.len()]) is None);
            }
        }
    } else {
        let m = spec_reduce(a)->0;
        let i = choose|i: int| 0 <= i < a.len() && #[trigger] row_height(a[i]) == Some(m);
        assert(row_height((a + a)[i]) == Some(m));
        assert(!(spec_reduce(a + a) is None));
        let m2 = spec_reduce(a + a)->0;
        let j = choose|j: int|
            0 <= j < (a + a).len() && #[trigger] row_height((a + a)[j]) == Some(m2);
        if j < a.len() {
            assert(row_height(a[j]) == Some(m2));
        } else {
            assert(row_height(a[j - a.len()]) == Some(m2));
        }
        assert(m <= m2 && m2 <= m);
    }
}

/// Reduces a row collection to the indexed head: the maximum over the
/// readable rows, a row with an unreadable or unparseable block number
/// being skipped.
pub fn reduce_rows(rows: &Vec<CursorRow>) -> (r: Option<Height>)
    ensures
        match r {
            Some(h) => spec_reduce(rows.deep_view()) == Some(h.as_int()),
            None => spec_reduce(rows.deep_view()) is None,
        },
{
    let ghost dv = rows.deep_view();
    let mut best: Option<Height> = None;
    let mut i: usize = 0;
    while i < rows.len()
        invariant
            i <= rows@.len(),
            dv == rows.deep_view(),
            dv.len() == rows@.len(),
            match best {
                Some(h) => spec_reduce(dv.take(i as int)) == Some(h.as_int()),
                None => spec_reduce(dv.take(i as int)) is None,
            },
        decreases rows@.len() - i,
    {
        let candidate: Option<Height> = match &rows[i] {
            CursorRow::Numeric(u) => Some(Height::from_u64(*u)),
            CursorRow::Text(s) => from_dec_str(s.as_str()),
            CursorRow::Unreadable => None,
        };
        proof {
            assert(dv[i as int] == rows@[i as int].deep_view());
            assert(match candidate {
                Some(h) => row_height(dv[i as int]) == Some(h.as_int()),
                None => row_height(dv[i as int]) is None,
            });
            assert(dv.take(i + 1).drop_last() =~= dv.take(i as int));
            assert(dv.take(i + 1).last() == dv[i as int]);
        }
        best = match (best, candidate) {
            (None, c) => c,
            (Some(b), None) => Some(b),
            (Some(b), Some(c)) => if b.lt(&c) {
                Some(c)
            } else {
                Some(b)
            },
        };
        i = i + 1;
    }
    proof {
        assert(dv.take(rows@.len() as int) =~= dv);
    }
    best
}

/// What the indexing-status response body holds: the cursor rows under
/// its `data`.`cursors` path, or the way its structure fell short. A
/// function of the body text alone.
pub uninterp spec fn cursor_rows_of(body: Seq<char>) -> Result<Seq<CursorRowView>, JsonShapeError>;

/// Relies on serde_json::from_str and serde_json::Value::{get, as_array,
/// as_u64, as_str}: parses the body and reads the array under
/// `data`.`cursors`, taking each row's `block_num` field as an integer
/// if it is one, else as a string, else as unreadable.
#[verifier::external_body]
fn extract_cursor_rows(body: &str) -> (r: Result<Vec<CursorRow>, JsonShapeError>)
    ensures
        match r {
            Ok(rows) => cursor_rows_of(body@) == Ok::<Seq<CursorRowView>, JsonShapeError>(
                rows.deep_view(),
            ),
            Err(e) => cursor_rows_of(body@) == Err::<Seq<CursorRowView>, JsonShapeError>(e),
        },
{
    let v: serde_json::Value = match serde_json::from_str(body) {
        Ok(v) => v,
        Err(_) => return Err(JsonShapeError::NotJson),
    };
    let rows = match v.get("data").and_then(|d| d.get("cursors")).and_then(|c| c.as_array()) {
        Some(a) => a,
        None => return Err(JsonShapeError::MissingField),
    };
    Ok(rows.iter().map(|row| match row.get("block_num").map(|n| (n.as_u64(), n.as_str())) {
        Some((Some(u), _)) => CursorRow::Numeric(u),
        Some((_, Some(s))) => CursorRow::Text(s.to_string()),
        _ => CursorRow::Unreadable,
    }).collect())
}

/// Parses one indexing-status response body into the tick's indexed
/// head: the maximum of the readable rows' block numbers.
///
/// Fails with `Response` when the body is not structured data, with
/// `DataShape` when the row collection is missing or empty — an empty
/// collection must never pass as a height of zero — and with
/// `ValueParse` when rows exist but none yields a readable block number.
pub fn parse_cursor_response(body: &str) -> (r: Result<Height, FetchError>)
    ensures
        match cursor_rows_of(body@) {
            Err(JsonShapeError::NotJson) => r == Err::<Height, FetchError>(FetchError::Response),
            Err(JsonShapeError::MissingField) => r == Err::<Height, FetchError>(
                FetchError::DataShape,
            ),
            Ok(rows) => if rows.len() == 0 {
                r == Err::<Height, FetchError>(FetchError::DataShape)
            } else {
                match spec_reduce(rows) {
                    Some(m) => r matches Ok(h) && h.as_int() == m,
                    None => r == Err::<Height, FetchError>(FetchError::ValueParse),
                }
            },
        },
{
    match extract_cursor_rows(body) {
        Err(JsonShapeError::NotJson) => Err(FetchError::Response),
        Err(JsonShapeError::MissingField) => Err(FetchError::DataShape),
        Ok(rows) => {
            if rows.len() == 0 {
                return Err(FetchError::DataShape);
            }
            match reduce_rows(&rows) {
                Some(h) => Ok(h),
                None => Err(FetchError::ValueParse),
            }
        },
    }
}

} // verus!

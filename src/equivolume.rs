//! Equivolume boxes: candles whose width is their volume, built from the
//! complete candles of a batch, all or nothing.

use crate::oanda::{Candle, CandleView, candles_view};
use crate::price::{Price, PriceView, decimal_of, is_decimal, parse_price};
use vstd::prelude::*;

verus! {

/// Which of a candle's four prices is meant.
#[derive(Clone, Copy, Debug, PartialEq, Eq, Structural)]
pub enum PriceField {
    Open,
    High,
    Low,
    Close,
}

/// Why a complete candle could not become a box.
#[derive(Clone, Debug)]
pub enum EquivolumeError {
    /// The candle carries no prices of the requested kind (`category`).
    MissingPriceData { category: String },
    /// One price is not decimal text; `raw` is that text.
    InvalidPriceFormat { field: PriceField, raw: String },
}

pub enum ErrorView {
    MissingPriceData { category: Seq<char> },
    InvalidPriceFormat { field: PriceField, raw: Seq<char> },
}

impl View for EquivolumeError {
    type V = ErrorView;

    open spec fn view(&self) -> ErrorView {
        match self {
            EquivolumeError::MissingPriceData { category } => ErrorView::MissingPriceData {
                category: category@,
            },
            EquivolumeError::InvalidPriceFormat { field, raw } => ErrorView::InvalidPriceFormat {
                field: *field,
                raw: raw@,
            },
        }
    }
}

/// A candle drawn by volume: its time and volume as given, its prices read.
#[derive(Clone, Debug)]
pub struct EquivolumeBox {
    pub time: String,
    pub volume: i64,
    pub open: Price,
    pub high: Price,
    pub low: Price,
    pub close: Price,
}

pub struct BoxView {
    pub time: Seq<char>,
    pub volume: i64,
    pub open: PriceView,
    pub high: PriceView,
    pub low: PriceView,
    pub close: PriceView,
}

impl View for EquivolumeBox {
    type V = BoxView;

    open spec fn view(&self) -> BoxView {
        BoxView {
            time: self.time@,
            volume: self.volume,
            open: self.open@,
            high: self.high@,
            low: self.low@,
            close: self.close@,
        }
    }
}

/// The box for candle `c`, or why there is none. The prices are checked in
/// the order open, high, low, close; the first that is not decimal text is
/// reported.
pub open spec fn box_of(c: CandleView) -> Result<BoxView, ErrorView> {
    match c.mid {
        None => Err(ErrorView::MissingPriceData { category: "mid"@ }),
        Some(m) => if !is_decimal(m.o) {
            Err(ErrorView::InvalidPriceFormat { field: PriceField::Open, raw: m.o })
        } else if !is_decimal(m.h) {
            Err(ErrorView::InvalidPriceFormat { field: PriceField::High, raw: m.h })
        } else if !is_decimal(m.l) {
            Err(ErrorView::InvalidPriceFormat { field: PriceField::Low, raw: m.l })
        } else if !is_decimal(m.c) {
            Err(ErrorView::InvalidPriceFormat { field: PriceField::Close, raw: m.c })
        } else {
            Ok(
                BoxView {
                    time: c.time,
                    volume: c.volume,
                    open: decimal_of(m.o),
                    high: decimal_of(m.h),
                    low: decimal_of(m.l),
                    close: decimal_of(m.c),
                },
            )
        },
    }
}

/// The boxes of the complete candles of `cs`, in order, or the error of the
/// first complete candle that has no box. Incomplete candles are passed by.
pub open spec fn boxes_of(cs: Seq<CandleView>) -> Result<Seq<BoxView>, ErrorView>
    decreases cs.len(),
{
    if cs.len() == 0 {
        Ok(Seq::empty())
    } else {
        match boxes_of(cs.drop_last()) {
            Err(e) => Err(e),
            Ok(bs) => if !cs.last().complete {
                Ok(bs)
            } else {
                match box_of(cs.last()) {
                    Err(e) => Err(e),
                    Ok(b) => Ok(bs.push(b)),
                }
            },
        }
    }
}

/// The complete candles of `cs`, in order.
pub open spec fn complete_only(cs: Seq<CandleView>) -> Seq<CandleView>
    decreases cs.len(),
{
    if cs.len() == 0 {
        Seq::empty()
    } else if cs.last().complete {
        complete_only(cs.drop_last()).push(cs.last())
    } else {
        complete_only(cs.drop_last())
    }
}

pub open spec fn box_result_view(r: Result<EquivolumeBox, EquivolumeError>) -> Result<
    BoxView,
    ErrorView,
> {
    match r {
        Ok(b) => Ok(b@),
        Err(e) => Err(e@),
    }
}

/// The views of a sequence of boxes.
pub open spec fn boxes_view(v: Seq<EquivolumeBox>) -> Seq<BoxView> {
    v.map_values(|b: EquivolumeBox| b@)
}

pub open spec fn boxes_result_view(r: Result<Vec<EquivolumeBox>, EquivolumeError>) -> Result<
    Seq<BoxView>,
    ErrorView,
> {
    match r {
        Ok(v) => Ok(boxes_view(v@)),
        Err(e) => Err(e@),
    }
}

impl EquivolumeBox {
    /// The box for one candle, whether complete or not.
    pub fn from_candle(candle: &Candle) -> (r: Result<EquivolumeBox, EquivolumeError>)
        ensures
            box_result_view(r) == box_of(candle@),
    {
        let mid = match &candle.mid {
            Some(m) => m,
            None => {
                return Err(EquivolumeError::MissingPriceData { category: String::from_str("mid") });
            },
        };
        let open = match parse_price(mid.o.as_str()) {
            Some(p) => p,
            None => {
                return Err(
                    EquivolumeError::InvalidPriceFormat { field: PriceField::Open, raw: mid.o.clone() },
                );
            },
        };
        let high = match parse_price(mid.h.as_str()) {
            Some(p) => p,
            None => {
                return Err(
                    EquivolumeError::InvalidPriceFormat { field: PriceField::High, raw: mid.h.clone() },
                );
            },
        };
        let low = match parse_price(mid.l.as_str()) {
            Some(p) => p,
            None => {
                return Err(
                    EquivolumeError::InvalidPriceFormat { field: PriceField::Low, raw: mid.l.clone() },
                );
            },
        };
        let close = match parse_price(mid.c.as_str()) {
            Some(p) => p,
            None => {
                return Err(
                    EquivolumeError::InvalidPriceFormat { field: PriceField::Close, raw: mid.c.clone() },
                );
            },
        };
        Ok(EquivolumeBox { time: candle.time.clone(), volume: candle.volume, open, high, low, close })
    }
}

proof fn lemma_error_persists(cs: Seq<CandleView>, k: int)
    requires
        0 <= k <= cs.len(),
        boxes_of(cs.take(k)) is Err,
    ensures
        boxes_of(cs) == boxes_of(cs.take(k)),
    decreases cs.len(),
{
    if k == cs.len() {
        assert(cs.take(k) =~= cs);
    } else {
        assert(cs.drop_last().take(k) =~= cs.take(k));
        lemma_error_persists(cs.drop_last(), k);
    }
}

/// The boxes of the complete candles, in order; incomplete candles are
/// skipped. The first complete candle without a box fails the whole batch.
pub fn calculate(candles: &[Candle]) -> (r: Result<Vec<EquivolumeBox>, EquivolumeError>)
    ensures
        boxes_result_view(r) == boxes_of(candles_view(candles@)),
{
    let ghost cs = candles_view(candles@);
    let mut boxes: Vec<EquivolumeBox> = Vec::new();
    let mut i: usize = 0;
    assert(cs.take(0) =~= Seq::<CandleView>::empty());
    assert(boxes_view(boxes@) =~= Seq::<BoxView>::empty());
    while i < candles.len()
        invariant
            i <= candles@.len(),
            cs == candles_view(candles@),
            boxes_of(cs.take(i as int)) == Ok::<Seq<BoxView>, ErrorView>(boxes_view(boxes@)),
        decreases candles.len() - i,
    {
        let candle = &candles[i];
        let ghost pre = cs.take(i as int);
        let ghost next = cs.take(i + 1);
        assert(next.drop_last() =~= pre);
        assert(next.last() == candle@);
        if candle.complete {
            match EquivolumeBox::from_candle(candle) {
                Ok(b) => {
                    let ghost old_boxes = boxes@;
                    boxes.push(b);
                    assert(boxes_view(boxes@) =~= boxes_view(old_boxes).push(b@));
                },
                Err(e) => {
                    proof {
                        lemma_error_persists(cs, i + 1);
                    }
                    return Err(e);
                },
            }
        }
        i = i + 1;
    }
    assert(cs.take(i as int) =~= cs);
    Ok(boxes)
}

/// An empty batch gives no boxes, and no error.
pub proof fn lemma_empty_batch()
    ensures
        boxes_of(Seq::empty()) == Ok::<Seq<BoxView>, ErrorView>(Seq::empty()),
{
}

/// Incomplete candles change nothing, whatever their prices: a batch gives
/// the same boxes, or the same error, as its complete candles alone.
pub proof fn lemma_incomplete_candles_ignored(cs: Seq<CandleView>)
    ensures
        boxes_of(cs) == boxes_of(complete_only(cs)),
    decreases cs.len(),
{
    if cs.len() > 0 {
        lemma_incomplete_candles_ignored(cs.drop_last());
        if cs.last().complete {
            let f = complete_only(cs);
            assert(f.drop_last() =~= complete_only(cs.drop_last()));
        }
    }
}

/// A batch succeeds exactly when every complete candle in it has a box;
/// it then holds one box for each complete candle, that candle's box, in
/// the order of the candles.
pub proof fn lemma_one_box_per_complete_candle(cs: Seq<CandleView>)
    ensures
        boxes_of(cs) is Ok <==> (forall|i: int|
            0 <= i < cs.len() && (#[trigger] cs[i]).complete ==> box_of(cs[i]) is Ok),
        boxes_of(cs) matches Ok(bs) ==> {
            &&& bs.len() == complete_only(cs).len()
            &&& forall|k: int|
                0 <= k < bs.len() ==> box_of(#[trigger] complete_only(cs)[k])
                    == Ok::<BoxView, ErrorView>(bs[k])
        },
    decreases cs.len(),
{
    if cs.len() > 0 {
        let p = cs.drop_last();
        lemma_one_box_per_complete_candle(p);
        assert forall|i: int| 0 <= i < p.len() implies #[trigger] p[i] == cs[i] by {}
        let last = cs.len() - 1;
        assert(cs[last] == cs.last());
        if boxes_of(p) is Err {
            assert(exists|i: int| 0 <= i < p.len() && (#[trigger] p[i]).complete && !(box_of(p[i]) is Ok));
            let i = choose|i: int| 0 <= i < p.len() && (#[trigger] p[i]).complete && !(box_of(p[i]) is Ok);
            assert(cs[i] == p[i]);
        } else {
            if cs.last().complete {
                let f = complete_only(cs);
                assert(f.drop_last() =~= complete_only(p));
                if box_of(cs.last()) is Ok {
                    assert forall|i: int| 0 <= i < cs.len() && (#[trigger] cs[i]).complete implies box_of(cs[i]) is Ok by {
                        if i < p.len() {
                            assert(p[i] == cs[i]);
                        }
                    }
                }
            } else {
                assert forall|i: int| 0 <= i < cs.len() && (#[trigger] cs[i]).complete implies box_of(cs[i]) is Ok by {
                    assert(i != last);
                    assert(p[i] == cs[i]);
                }
            }
        }
    }
}

/// Each box keeps exactly the time and the volume of its candle.
pub proof fn lemma_time_and_volume_kept(cs: Seq<CandleView>)
    ensures
        boxes_of(cs) matches Ok(bs) ==> forall|k: int|
            0 <= k < bs.len() ==> {
                &&& (#[trigger] bs[k]).time == complete_only(cs)[k].time
                &&& bs[k].volume == complete_only(cs)[k].volume
            },
{
    lemma_one_box_per_complete_candle(cs);
    if boxes_of(cs) is Ok {
        let bs = boxes_of(cs)->Ok_0;
        assert forall|k: int| 0 <= k < bs.len() implies {
            &&& (#[trigger] bs[k]).time == complete_only(cs)[k].time
            &&& bs[k].volume == complete_only(cs)[k].volume
        } by {
            assert(box_of(complete_only(cs)[k]) == Ok::<BoxView, ErrorView>(bs[k]));
        }
    }
}

/// Fail-fast: where the first complete candle without a box stands at `i`,
/// the batch fails with that candle's error and gives no boxes, however
/// many good candles come before it.
pub proof fn lemma_first_bad_candle_fails_batch(cs: Seq<CandleView>, i: int)
    requires
        0 <= i < cs.len(),
        cs[i].complete,
        box_of(cs[i]) is Err,
        forall|j: int| 0 <= j < i && (#[trigger] cs[j]).complete ==> box_of(cs[j]) is Ok,
    ensures
        boxes_of(cs) == Err::<Seq<BoxView>, ErrorView>(box_of(cs[i])->Err_0),
{
    let pre = cs.take(i);
    assert forall|j: int| 0 <= j < pre.len() && (#[trigger] pre[j]).complete implies box_of(
        pre[j],
    ) is Ok by {
        assert(pre[j] == cs[j]);
    }
    lemma_one_box_per_complete_candle(pre);
    let next = cs.take(i + 1);
    assert(next.drop_last() =~= pre);
    assert(next.last() == cs[i]);
    lemma_error_persists(cs, i + 1);
}

/// A complete candle without mid prices, after only good candles, fails
/// the batch with `MissingPriceData` for the mid prices.
pub proof fn lemma_missing_prices_fail_batch(cs: Seq<CandleView>, i: int)
    requires
        0 <= i < cs.len(),
        cs[i].complete,
        cs[i].mid is None,
        forall|j: int| 0 <= j < i && (#[trigger] cs[j]).complete ==> box_of(cs[j]) is Ok,
    ensures
        boxes_of(cs) == Err::<Seq<BoxView>, ErrorView>(
            ErrorView::MissingPriceData { category: "mid"@ },
        ),
{
    lemma_first_bad_candle_fails_batch(cs, i);
}

} // verus!

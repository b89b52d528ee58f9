use equivolume::equivolume::{calculate, EquivolumeBox, EquivolumeError, PriceField};
use equivolume::oanda::{Candle, Ohlc};
use equivolume::price::{parse_price, Price};

fn as_f64(p: &Price) -> f64 {
    p.to_text().parse::<f64>().unwrap()
}

fn candle(time: &str, volume: i64, complete: bool, prices: Option<[&str; 4]>) -> Candle {
    Candle {
        time: time.to_string(),
        volume,
        complete,
        mid: prices.map(|p| Ohlc {
            o: p[0].to_string(),
            h: p[1].to_string(),
            l: p[2].to_string(),
            c: p[3].to_string(),
        }),
    }
}

fn first_day(complete: bool) -> Candle {
    candle("2023-01-01T00:00:00Z", 100, complete, Some(["1.1000", "1.1050", "1.0950", "1.1020"]))
}

fn second_day() -> Candle {
    candle("2023-01-02T00:00:00Z", 200, true, Some(["1.1020", "1.1100", "1.1000", "1.1080"]))
}

#[test]
fn test_calculate_equivolume() {
    let candles = vec![
        Candle {
            time: "2023-01-01T00:00:00Z".to_string(),
            volume: 100,
            complete: true,
            mid: Some(Ohlc {
                o: "1.1000".to_string(),
                h: "1.1050".to_string(),
                l: "1.0950".to_string(),
                c: "1.1020".to_string(),
            }),
        },
        Candle {
            time: "2023-01-02T00:00:00Z".to_string(),
            volume: 200,
            complete: true,
            mid: Some(Ohlc {
                o: "1.1020".to_string(),
                h: "1.1100".to_string(),
                l: "1.1000".to_string(),
                c: "1.1080".to_string(),
            }),
        },
    ];

    let result = calculate(&candles).expect("Calculation failed");

    assert_eq!(result.len(), 2);

    let box1 = &result[0];
    assert_eq!(box1.volume, 100);
    assert!((as_f64(&box1.high) - 1.1050).abs() < 1e-6);
    assert!((as_f64(&box1.low) - 1.0950).abs() < 1e-6);

    let box2 = &result[1];
    assert_eq!(box2.volume, 200);
    assert!((as_f64(&box2.high) - 1.1100).abs() < 1e-6);
    assert!((as_f64(&box2.low) - 1.1000).abs() < 1e-6);
}

#[test]
fn two_complete_candles_give_two_boxes_in_order() {
    let result = calculate(&[first_day(true), second_day()]).unwrap();
    assert_eq!(result.len(), 2);
    assert_eq!(result[0].time, "2023-01-01T00:00:00Z");
    assert_eq!(result[0].volume, 100);
    assert!((as_f64(&result[0].high) - 1.1050).abs() < 1e-9);
    assert_eq!(result[1].time, "2023-01-02T00:00:00Z");
    assert_eq!(result[1].volume, 200);
    assert!((as_f64(&result[1].high) - 1.1100).abs() < 1e-9);
    assert!((as_f64(&result[1].open) - 1.1020).abs() < 1e-9);
    assert!((as_f64(&result[1].close) - 1.1080).abs() < 1e-9);
}

#[test]
fn incomplete_first_candle_is_skipped() {
    let result = calculate(&[first_day(false), second_day()]).unwrap();
    assert_eq!(result.len(), 1);
    assert_eq!(result[0].time, "2023-01-02T00:00:00Z");
    assert_eq!(result[0].volume, 200);
    assert!((as_f64(&result[0].high) - 1.1100).abs() < 1e-9);
}

#[test]
fn incomplete_malformed_candle_is_skipped_silently() {
    let broken = candle("2023-01-03T00:00:00Z", 5, false, Some(["abc", "x", "y", "z"]));
    let missing = candle("2023-01-04T00:00:00Z", 6, false, None);
    let result = calculate(&[first_day(true), broken, missing, second_day()]).unwrap();
    assert_eq!(result.len(), 2);
    assert_eq!(result[0].volume, 100);
    assert_eq!(result[1].volume, 200);
}

#[test]
fn all_incomplete_gives_empty_output() {
    let result = calculate(&[first_day(false)]).unwrap();
    assert!(result.is_empty());
}

#[test]
fn empty_input_gives_empty_output() {
    let result = calculate(&[]).unwrap();
    assert!(result.is_empty());
}

#[test]
fn later_bad_price_fails_the_batch() {
    let bad = candle("2023-01-03T00:00:00Z", 300, true, Some(["abc", "1.1", "1.0", "1.05"]));
    let result = calculate(&[first_day(true), second_day(), bad]);
    match result {
        Err(EquivolumeError::InvalidPriceFormat { field, raw }) => {
            assert_eq!(field, PriceField::Open);
            assert_eq!(raw, "abc");
        }
        other => panic!("expected an invalid price, got {:?}", other),
    }
}

#[test]
fn first_bad_field_is_reported() {
    let bad = candle("t", 1, true, Some(["1.0", "1,5", "oops", "1.0"]));
    match EquivolumeBox::from_candle(&bad) {
        Err(EquivolumeError::InvalidPriceFormat { field, raw }) => {
            assert_eq!(field, PriceField::High);
            assert_eq!(raw, "1,5");
        }
        other => panic!("expected an invalid price, got {:?}", other),
    }
    let bad_close = candle("t", 1, true, Some(["1.0", "2", "0.5", "1e3"]));
    match EquivolumeBox::from_candle(&bad_close) {
        Err(EquivolumeError::InvalidPriceFormat { field, raw }) => {
            assert_eq!(field, PriceField::Close);
            assert_eq!(raw, "1e3");
        }
        other => panic!("expected an invalid price, got {:?}", other),
    }
}

#[test]
fn missing_prices_fail_the_batch() {
    let bare = candle("2023-01-03T00:00:00Z", 300, true, None);
    match calculate(&[first_day(true), bare, second_day()]) {
        Err(EquivolumeError::MissingPriceData { category }) => assert_eq!(category, "mid"),
        other => panic!("expected missing prices, got {:?}", other),
    }
}

#[test]
fn first_error_in_the_batch_wins() {
    let bare = candle("a", 1, true, None);
    let bad = candle("b", 2, true, Some(["x", "1", "1", "1"]));
    match calculate(&[bad, bare]) {
        Err(EquivolumeError::InvalidPriceFormat { field, .. }) => assert_eq!(field, PriceField::Open),
        other => panic!("expected an invalid price, got {:?}", other),
    }
}

#[test]
fn box_keeps_time_and_volume() {
    let c = candle("2024-06-30T21:00:00.000000000Z", 9_000_000_000, true, Some(["1", "2", "0.5", "1.5"]));
    let b = EquivolumeBox::from_candle(&c).unwrap();
    assert_eq!(b.time, "2024-06-30T21:00:00.000000000Z");
    assert_eq!(b.volume, 9_000_000_000);
    assert!((as_f64(&b.low) - 0.5).abs() < 1e-9);
}

#[test]
fn price_text_reads_exactly() {
    let p = parse_price("1.1050").unwrap();
    assert!(!p.negative);
    assert_eq!(p.digits, vec![1, 1, 0, 5, 0]);
    assert_eq!(p.scale, 4);
    assert!((as_f64(&p) - 1.1050).abs() < 1e-9);
    assert_eq!(p.to_text(), "1.1050");
}

#[test]
fn price_signs_and_points() {
    let p = parse_price("-0.25").unwrap();
    assert!(p.negative);
    assert_eq!(p.digits, vec![0, 2, 5]);
    assert_eq!(p.scale, 2);
    assert_eq!(p.to_text(), "-0.25");
    assert!((as_f64(&p) + 0.25).abs() < 1e-12);

    let p = parse_price("+42").unwrap();
    assert!(!p.negative);
    assert_eq!(p.digits, vec![4, 2]);
    assert_eq!(p.scale, 0);
    assert_eq!(p.to_text(), "42");

    let p = parse_price(".5").unwrap();
    assert_eq!(p.digits, vec![5]);
    assert_eq!(p.scale, 1);
    assert_eq!(p.to_text(), ".5");

    let p = parse_price("7.").unwrap();
    assert_eq!(p.digits, vec![7]);
    assert_eq!(p.scale, 0);
    assert_eq!(p.to_text(), "7");
}

#[test]
fn price_text_refused() {
    for s in ["", "-", "+", ".", "-.", "abc", "1.2.3", "1e5", " 1", "1 ", "1,5", "inf", "NaN", "--1", "1.0\u{e9}"] {
        assert!(parse_price(s).is_none(), "accepted {:?}", s);
    }
}

use rust_decimal::Decimal;
use tastyview::decimal::Dec;
use tastyview::portfolio::{App, Direction, Greek, Greeks, PriceRecord, UnderlyingGroup};
use tastyview::table::{column_titles, percent_cell};
use tastyview::valuation::signed_value;

fn dec(mantissa: i128, scale: u32) -> Dec {
    Dec { mantissa, scale }
}

fn value(d: Dec) -> Decimal {
    Decimal::from_i128_with_scale(d.mantissa, d.scale)
}

fn plain(symbol: &str, dir: Direction) -> PriceRecord {
    PriceRecord::new(symbol.to_string(), dec(100, 2), dec(250, 2), dec(3, 0), dec(1, 0), dir)
}

fn three_rows() -> App {
    let mut app = App::new();
    assert!(app.add_position("X".to_string(), "X1".to_string(), plain("X1", Direction::Long)));
    assert!(app.add_position("X".to_string(), "X2".to_string(), plain("X2", Direction::Long)));
    app.next();
    app.toggle_group();
    assert_eq!(app.num_lines, 3);
    app
}

#[test]
fn num_lines_counts_headers_and_open_records() {
    let mut app = three_rows();
    assert!(app.add_position("A".to_string(), "A1".to_string(), plain("A1", Direction::Long)));
    assert_eq!(app.groups[0].underlying, "A");
    assert_eq!(app.num_lines, 4);
}

#[test]
fn steps_stay_in_range() {
    let mut app = three_rows();
    for i in 0..20 {
        if i % 3 == 0 {
            app.previous();
        } else {
            app.next();
        }
        let s = app.selected.unwrap();
        assert!(s < app.num_lines);
    }
}

#[test]
fn next_then_previous_is_identity() {
    let mut app = three_rows();
    for start in 0..3 {
        app.selected = Some(start);
        app.next();
        app.previous();
        assert_eq!(app.selected, Some(start));
    }
}

#[test]
fn wrap_around_both_ways() {
    let mut app = three_rows();
    app.selected = Some(2);
    app.next();
    assert_eq!(app.selected, Some(0));
    app.previous();
    assert_eq!(app.selected, Some(2));
}

#[test]
fn single_row_steps_stay_on_it() {
    let mut app = App::new();
    assert!(app.add_position("X".to_string(), "X1".to_string(), plain("X1", Direction::Long)));
    assert_eq!(app.num_lines, 1);
    app.next();
    assert_eq!(app.selected, Some(0));
    app.next();
    assert_eq!(app.selected, Some(0));
    app.previous();
    assert_eq!(app.selected, Some(0));
}

#[test]
fn empty_table_steps_change_nothing() {
    let mut app = App::new();
    app.next();
    app.previous();
    app.toggle_group();
    assert_eq!(app.selected, None);
    assert_eq!(app.num_lines, 0);
}

#[test]
fn toggle_twice_restores_group() {
    let mut app = three_rows();
    app.selected = Some(0);
    app.toggle_group();
    assert!(!app.groups[0].open);
    assert_eq!(app.num_lines, 1);
    app.toggle_group();
    assert!(app.groups[0].open);
    assert_eq!(app.num_lines, 3);
}

#[test]
fn toggle_on_record_row_does_nothing() {
    let mut app = three_rows();
    app.selected = Some(1);
    app.toggle_group();
    assert!(app.groups[0].open);
    assert_eq!(app.num_lines, 3);
}

#[test]
fn toggle_empty_group_keeps_line_count() {
    let mut app = App::new();
    app.groups.push(UnderlyingGroup { underlying: "E".to_string(), open: false, records: Vec::new() });
    app.update_num_lines();
    assert_eq!(app.num_lines, 1);
    app.next();
    app.toggle_group();
    assert!(app.groups[0].open);
    assert_eq!(app.num_lines, 1);
}

#[test]
fn greeks_twice_same_as_once() {
    let mut app = three_rows();
    let g = Greeks { theta: Greek::Value(dec(-12, 2)), delta: Greek::NotANumber };
    app.apply_greeks(&"X1".to_string(), g);
    let once = app.table_rows();
    app.apply_greeks(&"X1".to_string(), g);
    assert_eq!(app.table_rows(), once);
    assert_eq!(app.groups[0].records[0].record.greeks, g);
    assert_eq!(once[1][6], "-0.36");
    assert_eq!(once[1][7], "NaN");
}

#[test]
fn infinite_greek_renders_token() {
    let mut app = three_rows();
    let g = Greeks { theta: Greek::PosInfinity, delta: Greek::NegInfinity };
    app.apply_greeks(&"X2".to_string(), g);
    let rows = app.table_rows();
    assert_eq!(rows[2][6], "inf");
    assert_eq!(rows[2][7], "-inf");
    assert_eq!(rows[0][8], "15.00");
}

#[test]
fn balance_last_write_wins() {
    let mut app = App::new();
    app.apply_balance("B".to_string(), dec(1, 0));
    app.apply_balance("B".to_string(), dec(2, 0));
    assert_eq!(app.balances.len(), 1);
    assert_eq!(app.balances[0].cash, dec(2, 0));
}

#[test]
fn new_accounts_take_their_place_in_order() {
    let mut app = App::new();
    app.apply_balance("C".to_string(), dec(1, 0));
    app.apply_balance("A".to_string(), dec(2, 0));
    app.apply_balance("B".to_string(), dec(3, 0));
    let names: Vec<&str> = app.balances.iter().map(|b| b.account.as_str()).collect();
    assert_eq!(names, vec!["A", "B", "C"]);
}

#[test]
fn zero_total_zero_share() {
    assert_eq!(percent_cell(Some(dec(0, 2)), Some(dec(0, 0))), "0.00%");
    assert_eq!(percent_cell(Some(dec(5, 0)), Some(dec(0, 0))), "NaN%");
    assert_eq!(percent_cell(None, Some(dec(5, 0))), "NaN%");
}

#[test]
fn share_is_rounded_half_even_to_two_places() {
    assert_eq!(percent_cell(Some(dec(1, 0)), Some(dec(3, 0))), "33.33%");
    assert_eq!(percent_cell(Some(dec(1, 0)), Some(dec(8, 0))), "12.50%");
    assert_eq!(percent_cell(Some(dec(1, 0)), Some(dec(1600, 0))), "0.06%");
    assert_eq!(percent_cell(Some(dec(-1, 0)), Some(dec(4, 0))), "-25.00%");
}

#[test]
fn sign_follows_direction_only() {
    let long = plain("L", Direction::Long);
    let zero = plain("Z", Direction::Zero);
    let short = plain("S", Direction::Short);
    assert_eq!(value(signed_value(&long).unwrap()), Decimal::new(750, 2));
    assert_eq!(value(signed_value(&zero).unwrap()), Decimal::new(750, 2));
    assert_eq!(value(signed_value(&short).unwrap()), Decimal::new(-750, 2));
}

#[test]
fn record_prices_rounded_on_creation() {
    let rec = PriceRecord::new("R".to_string(), dec(2555, 3), dec(2545, 3), dec(1, 0), dec(1, 0), Direction::Long);
    assert_eq!(rec.open, dec(256, 2));
    assert_eq!(rec.current, dec(254, 2));
}

#[test]
fn amount_is_rounded_to_five_places() {
    let mut app = App::new();
    let rec = PriceRecord::new("F".to_string(), dec(1, 0), dec(1, 0), dec(1234567, 6), dec(1, 0), Direction::Short);
    assert!(app.add_position("F".to_string(), "F".to_string(), rec));
    app.next();
    app.toggle_group();
    let rows = app.table_rows();
    assert_eq!(rows[1][3], "-1.23457");
    assert_eq!(rows[1][1], " SHARES");
}

#[test]
fn overflowing_value_renders_nan() {
    let mut app = App::new();
    let huge = dec(79_228_162_514_264_337_593_543_950_335, 0);
    let rec = PriceRecord::new("H".to_string(), dec(0, 0), huge, huge, dec(1, 0), Direction::Long);
    assert!(app.add_position("H".to_string(), "H".to_string(), rec));
    let rows = app.table_rows();
    assert_eq!(rows[0][8], "NaN");
    assert_eq!(rows[0][0], "NaN%");
    assert_eq!(rows.last().unwrap()[1], "NaN");
}

#[test]
fn duplicate_streamer_symbol_is_refused() {
    let mut app = three_rows();
    assert!(!app.add_position("Y".to_string(), "X1".to_string(), plain("Y", Direction::Long)));
    assert_eq!(app.groups.len(), 1);
    assert_eq!(app.num_lines, 3);
}

#[test]
fn records_kept_in_symbol_order() {
    let mut app = App::new();
    for s in ["b", "c", "a"] {
        assert!(app.add_position("U".to_string(), s.to_string(), plain(s, Direction::Long)));
    }
    let names: Vec<&str> = app.groups[0].records.iter().map(|p| p.stream_symbol.as_str()).collect();
    assert_eq!(names, vec!["a", "b", "c"]);
    assert!(app.get_record(&"z".to_string()).is_none());
    assert_eq!(app.find_record(&"c".to_string()), Some((0, 2)));
}

#[test]
fn header_titles_in_order() {
    assert_eq!(
        column_titles(),
        vec!["PORT %", "SYMBOL", "CURRENT", "AMOUNT", "TRADE PRICE", "PROFIT", "THETA", "DELTA", "NET LIQ"]
    );
}

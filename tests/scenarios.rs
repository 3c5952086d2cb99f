use rust_decimal::prelude::FromPrimitive;
use rust_decimal::Decimal;
use tastyview::decimal::Dec;
use tastyview::events::{Action, Event, Key};
use tastyview::portfolio::{App, Direction, Greek, Greeks, PriceRecord};
use tastyview::valuation::{profit, signed_value};

fn dec(mantissa: i128, scale: u32) -> Dec {
    Dec { mantissa, scale }
}

fn from_f64(x: f64) -> Dec {
    let d = Decimal::from_f64(x).unwrap();
    Dec { mantissa: d.mantissa(), scale: d.scale() }
}

fn value(d: Dec) -> Decimal {
    Decimal::from_i128_with_scale(d.mantissa, d.scale)
}

fn cell_value(s: &str) -> Decimal {
    s.parse::<Decimal>().unwrap()
}

fn record(symbol: &str, open: Dec, close: Dec, qty: Dec, mult: Dec, dir: Direction) -> PriceRecord {
    PriceRecord::new(symbol.to_string(), open, close, qty, mult, dir)
}

fn row(cells: &[&str]) -> Vec<String> {
    cells.iter().map(|c| c.to_string()).collect()
}

fn spy_app() -> App {
    let mut app = App::new();
    let rec = record("SPY 240621P00400000", dec(350, 2), dec(300, 2), dec(2, 0), dec(100, 0), Direction::Short);
    assert!(app.add_position("SPY".to_string(), ".SPY240621P400".to_string(), rec));
    assert_eq!(app.handle(Event::Key(Key::Down)), Action::Redraw);
    assert_eq!(app.handle(Event::Key(Key::Space)), Action::Redraw);
    assert!(app.groups[0].open);
    app
}

#[test]
fn single_share_position() {
    let mut app = App::new();
    app.apply_balance("A".to_string(), dec(100000, 2));
    let rec = record("AAPL", dec(15000, 2), dec(15500, 2), dec(10, 0), dec(1, 0), Direction::Long);
    assert!(app.add_position("AAPL".to_string(), "AAPL".to_string(), rec));
    let rows = app.table_rows();
    assert_eq!(rows[0], row(&["100.00%", "AAPL", "", "", "", "50.00", "", "", "1550.00"]));
    assert_eq!(rows[1], row(&[""]));
    assert_eq!(rows[2], row(&["CASH"]));
    assert_eq!(rows[3], row(&[" A", "1000.00"]));
    assert_eq!(rows[4], row(&[""]));
    assert_eq!(rows[5], row(&["TOTAL", "2550.00"]));
    assert_eq!(rows.len(), 6);
}

#[test]
fn single_share_position_open_row() {
    let mut app = App::new();
    let rec = record("AAPL", dec(15000, 2), dec(15500, 2), dec(10, 0), dec(1, 0), Direction::Long);
    assert!(app.add_position("AAPL".to_string(), "AAPL".to_string(), rec));
    app.next();
    app.toggle_group();
    let rows = app.table_rows();
    assert_eq!(
        rows[1],
        row(&["100.00%", " SHARES", "155.00", "10", "150.00", "50.00", "0", "0", "1550.00"])
    );
}

#[test]
fn short_option_midpoint_update() {
    let mut app = spy_app();
    let mid = from_f64((2.40 + 2.60) / 2.0);
    app.handle(Event::Quote { symbol: ".SPY240621P400".to_string(), mid: Some(mid) });
    let rec = app.get_record(&".SPY240621P400".to_string()).unwrap();
    assert_eq!(value(rec.current), Decimal::new(250, 2));
    assert_eq!(value(signed_value(rec).unwrap()), Decimal::new(-50000, 2));
    assert_eq!(value(profit(rec).unwrap()), Decimal::new(20000, 2));
    let rows = app.table_rows();
    assert_eq!(rows[1][1], " SPY 240621P00400000");
    assert_eq!(cell_value(&rows[1][3]), Decimal::new(-2, 0));
    assert_eq!(rows[1][3], "-2");
    assert_eq!(cell_value(&rows[1][5]), Decimal::new(200, 0));
    assert_eq!(cell_value(&rows[1][8]), Decimal::new(-500, 0));
    assert_eq!(rows[0][0], "100.00%");
}

#[test]
fn greeks_propagation() {
    let mut app = spy_app();
    let greeks = Greeks { theta: Greek::Value(from_f64(-0.12)), delta: Greek::Value(from_f64(-0.30)) };
    app.handle(Event::Greeks { symbol: ".SPY240621P400".to_string(), greeks });
    let rows = app.table_rows();
    assert_eq!(cell_value(&rows[1][6]), Decimal::new(2400, 2));
    assert_eq!(cell_value(&rows[1][7]), Decimal::new(6000, 2));
}

#[test]
fn group_collapse_navigation() {
    let mut app = App::new();
    for (u, s) in [("AAPL", "A1"), ("AAPL", "A2"), ("AAPL", "A3"), ("MSFT", "M1"), ("MSFT", "M2")] {
        let rec = record(s, dec(1, 0), dec(1, 0), dec(1, 0), dec(1, 0), Direction::Long);
        assert!(app.add_position(u.to_string(), s.to_string(), rec));
    }
    assert_eq!(app.num_lines, 2);
    app.next();
    app.toggle_group();
    for _ in 0..4 {
        app.next();
    }
    assert_eq!(app.selected, Some(4));
    app.toggle_group();
    assert_eq!(app.num_lines, 7);
    for _ in 0..4 {
        app.previous();
    }
    assert_eq!(app.selected, Some(0));
    app.handle(Event::Key(Key::Space));
    assert!(!app.groups[0].open);
    assert_eq!(app.num_lines, 4);
    app.handle(Event::Key(Key::Down));
    assert_eq!(app.selected, Some(1));
    app.handle(Event::Key(Key::Space));
    assert!(!app.groups[1].open);
    assert_eq!(app.num_lines, 2);
}

#[test]
fn balance_update() {
    let mut app = App::new();
    app.apply_balance("A1".to_string(), dec(500, 0));
    app.apply_balance("A2".to_string(), dec(700, 0));
    let rows = app.table_rows();
    assert_eq!(rows.last().unwrap(), &row(&["TOTAL", "1200"]));
    app.handle(Event::Balance { account: "A1".to_string(), cash: dec(450, 0) });
    let rows = app.table_rows();
    assert_eq!(rows[0], row(&[""]));
    assert_eq!(rows[1], row(&["CASH"]));
    assert_eq!(rows[2], row(&[" A1", "450"]));
    assert_eq!(rows[3], row(&[" A2", "700"]));
    assert_eq!(rows.last().unwrap(), &row(&["TOTAL", "1150"]));
}

#[test]
fn quote_for_unknown_symbol() {
    let mut app = spy_app();
    let before = app.table_rows();
    let action = app.handle(Event::Quote { symbol: "NOPE".to_string(), mid: Some(dec(999, 0)) });
    assert_eq!(action, Action::Redraw);
    assert_eq!(app.table_rows(), before);
    assert_eq!(value(app.groups[0].records[0].record.current), Decimal::new(300, 2));
}

#[test]
fn quote_that_is_no_decimal_changes_nothing() {
    let mut app = spy_app();
    let before = app.table_rows();
    app.handle(Event::Quote { symbol: ".SPY240621P400".to_string(), mid: None });
    assert_eq!(app.table_rows(), before);
}

#[test]
fn quit_and_closed_input_stop_the_loop() {
    let mut app = App::new();
    assert_eq!(app.handle(Event::Key(Key::Quit)), Action::Quit);
    assert_eq!(app.handle(Event::InputClosed), Action::Quit);
    assert_eq!(app.handle(Event::Key(Key::Other)), Action::Redraw);
    assert_eq!(app.handle(Event::Ignored), Action::Redraw);
}

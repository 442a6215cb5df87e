//! Tables as text.
use voltic::csv;
use voltic::csv::{CsvError, Layout, NumberReader};
use voltic::double::Double;
use voltic::kind::{kinds_as_bool, parse_kind, parse_kinds, OptionKind};

struct Plain;

impl NumberReader for Plain {
    fn read(&self, field: &[char]) -> Option<Double> {
        let text: String = field.iter().collect();
        text.trim().parse::<f64>().ok().map(|x| Double { bits: x.to_bits() })
    }
}

fn chars(s: &str) -> Vec<char> {
    s.chars().collect()
}

fn text(s: &[char]) -> String {
    s.iter().collect()
}

fn layout(sigma: bool, labels: bool, strict: bool) -> Layout {
    Layout { sigma, labels, strict }
}

#[test]
fn fields_of_a_line() {
    let f = csv::split(&chars("a,,b "), ',');
    assert_eq!(f.iter().map(|x| text(x)).collect::<Vec<_>>(), ["a", "", "b "]);
    assert_eq!(csv::split(&chars(""), ',').len(), 1);
    assert_eq!(text(&csv::trim(&chars("  x y\t\r\n"))), "x y");
    assert_eq!(text(&csv::trim(&chars(" \t "))), "");
}

#[test]
fn lines_of_a_text() {
    let l = csv::lines(&chars("one\ntwo\r\n\nfour"));
    assert_eq!(l.iter().map(|x| text(x)).collect::<Vec<_>>(), ["one", "two", "", "four"]);
    assert_eq!(csv::lines(&chars("one\n")).len(), 1);
    assert_eq!(csv::lines(&chars("")).len(), 0);
}

#[test]
fn table_with_labels() {
    let t = chars(
        "spot,strike,tte,rate,price,sigma_true,kind,regime,expected\n\
         100,110,0.5,0.01,2.5,0.2,c,short_t,Computed\n\
         90,80,1,0,1.5,0.3,p, wing ,NonFinite\n",
    );
    let rows = csv::parse_table(&Plain, &t, layout(true, true, false)).unwrap();
    assert_eq!(rows.len(), 2);
    assert_eq!(f64::from_bits(rows[0].strike.bits), 110.0);
    assert_eq!(rows[0].sigma.map(|s| f64::from_bits(s.bits)), Some(0.2));
    assert!(rows[0].kind == OptionKind::Call);
    assert!(rows[1].kind == OptionKind::Put);
    assert_eq!(text(&rows[1].regime), "wing");
    assert_eq!(text(&rows[1].expected), "NonFinite");
}

#[test]
fn table_without_volatilities() {
    let t = chars("header\n100,110,0.5,0.01,2.5,not read,c");
    let rows = csv::parse_table(&Plain, &t, layout(false, false, true)).unwrap();
    assert_eq!(rows.len(), 1);
    assert!(rows[0].sigma.is_none());
    assert_eq!(rows[0].regime.len(), 0);
}

#[test]
fn faults_of_a_table() {
    let parse = |s: &str, l: Layout| csv::parse_table(&Plain, &chars(s), l).err();
    assert_eq!(
        parse("h\n1,2,3,4,5,6,c\n1,2,x,4,5,6,c", layout(true, false, false)),
        Some(CsvError::BadNumber { row: 1, column: 2 })
    );
    assert_eq!(
        parse("h\n1,2,3", layout(true, false, false)),
        Some(CsvError::MissingField { row: 0, column: 3 })
    );
    assert_eq!(
        parse("h\n1,2,3,4,5,6", layout(true, false, false)),
        Some(CsvError::MissingField { row: 0, column: 6 })
    );
    assert_eq!(
        parse("h\n1,2,3,4,5,6,c,regime", layout(true, true, false)),
        Some(CsvError::MissingField { row: 0, column: 8 })
    );
    assert_eq!(
        parse("h\n1,2,3,4,5,6,call", layout(true, false, true)),
        Some(CsvError::UnknownKind { row: 0 })
    );
    assert_eq!(parse("h\n1,2,3,4,5,6,call", layout(true, false, false)), None);
    assert_eq!(parse("", layout(true, false, true)), None);
}

#[test]
fn kinds_in_a_table() {
    assert!(csv::read_kind(&chars("c"), true) == Some(OptionKind::Call));
    assert!(csv::read_kind(&chars(" c "), true).is_none());
    assert!(csv::read_kind(&chars(" c "), false) == Some(OptionKind::Call));
    assert!(csv::read_kind(&chars("anything"), false) == Some(OptionKind::Put));
}

/// A written table reads back, number by number and row by row.
#[test]
fn tables_read_back() {
    let rows = [
        ([100.0, 90.5, 0.25, 0.01, 12.3456789012345678, 0.2], OptionKind::Call, ["A", "Computed"]),
        ([1e-5, 5e300, 2.0, -0.01, 1e-300, 0.0], OptionKind::Put, ["B", "Either"]),
    ];
    let lines: Vec<Vec<char>> = rows
        .iter()
        .map(|(x, kind, labels)| {
            let texts: Vec<Vec<char>> = x.iter().map(|v| chars(&format!("{v:.17e}"))).collect();
            csv::write_row(&texts, *kind, &labels.map(chars))
        })
        .collect();
    assert_eq!(csv::write_row(&[], OptionKind::Put, &[]), ['p']);
    let text = csv::write_table(&chars("header"), &lines);
    let layout = Layout { sigma: true, labels: true, strict: true };
    let back = match csv::parse_table(&Plain, &text, layout) {
        Ok(back) => back,
        Err(e) => panic!("{e:?}"),
    };
    assert_eq!(back.len(), 2);
    for (r, (x, kind, labels)) in back.iter().zip(rows) {
        let got = [r.spot, r.strike, r.tte, r.rate, r.price, r.sigma.unwrap()];
        assert_eq!(got.map(|v| v.bits), x.map(|v: f64| v.to_bits()));
        assert!(r.kind == kind);
        assert_eq!((r.regime.clone(), r.expected.clone()), (chars(labels[0]), chars(labels[1])));
    }
}

#[test]
fn value_behind_a_flag() {
    let args: Vec<Vec<char>> = ["prog", "--in", "a.csv", "--out"].map(chars).to_vec();
    assert_eq!(csv::find_value(&args, &chars("--in")), Some(2));
    assert_eq!(csv::find_value(&args, &chars("--out")), None);
    assert_eq!(csv::find_value(&args, &chars("--csv")), None);
}

#[test]
fn kinds_by_name() {
    for (name, put) in [("p", true), ("P", true), ("put", true), ("PuT", true), ("c", false), ("", true), ("puts", false), ("call", false)] {
        assert_eq!(parse_kind(name) == OptionKind::Put, put, "{name}");
    }
    let names = ["c", "P", "", "pUT", "puts", "x"].map(String::from);
    let kinds = parse_kinds(&names);
    assert_eq!(kinds_as_bool(&kinds), [true, false, true, false, true, true]);
    assert!(parse_kinds(&[]).is_empty());
    assert_eq!(OptionKind::Call.code(), "c");
    assert_eq!(OptionKind::Put.code(), "p");
}

use zombo::model::Item;
use zombo::model::Stat;
use zombo::source::Cursor;
use zombo::source::SourceError;
use zombo::Zomboid;

fn item(id: u32, name: &str, item_type: &str, condition: &str, amount: u32) -> Item {
    Item {
        id,
        name: name.to_string(),
        item_type: item_type.to_string(),
        condition: condition.to_string(),
        amount,
    }
}

/// The same records the original data file held, as a record sequence.
fn setup_entries() -> Vec<Result<Item, SourceError>> {
    vec![
        Ok(item(1, "Hummer", "Tool", "Mint", 10)),
        Ok(item(2, "Nails", "Fasteners", "Good", 400)),
        Ok(item(2, "Nails", "Fasteners", "Mint", 100)),
        Ok(item(3, "Garden saw", "Tool", "New", 2)),
        Ok(item(4, "Metal saw", "Tool", "New", 2)),
    ]
}

fn value(s: &Stat) -> f64 {
    s.numer() as f64 / s.denom() as f64
}

#[test]
fn zomboid_csv() {
    let mut z = Zomboid::new(Cursor::new(setup_entries()));

    z.set_take(Some(2));
    z.set_skip(Some(2));

    assert_eq!(z.get_skip(), Some(2));
    assert_eq!(z.get_take(), Some(2));

    let table = z.stream().unwrap();
    let data = table.as_data();

    assert_eq!(data.len(), 2);
    assert_eq!(data[0].id, 2);
    assert_eq!(data[1].id, 3);

    println!("{}", table.render().unwrap());
}

#[test]
fn lib_zomboid_csv() {
    let mut z = Zomboid::new(Cursor::new(setup_entries()));

    z.set_take(Some(2));
    z.set_skip(Some(2));

    assert_eq!(z.get_skip(), Some(2));
    assert_eq!(z.get_take(), Some(2));

    let table = z.stream().unwrap();
    let data = table.as_data();

    assert_eq!(data.len(), 2);
    assert_eq!(data[0].id, 2);
    assert_eq!(data[1].id, 3);

    println!("{}", table.render().unwrap());
}

#[test]
fn describe() {
    let mut z = Zomboid::new(Cursor::new(setup_entries()));

    let table = z.describe().unwrap();
    println!("{}", table.render().unwrap());
}

#[test]
fn window_lengths() {
    // |S| = 5: the listing holds min(take, max(0, 5 - skip)) records.
    let cases: Vec<(Option<usize>, Option<usize>, usize)> = vec![
        (None, None, 5),
        (None, Some(0), 5),
        (None, Some(7), 0),
        (Some(0), None, 0),
        (Some(3), None, 3),
        (Some(3), Some(4), 1),
        (Some(9), Some(1), 4),
        (Some(2), Some(5), 0),
    ];
    for (take, skip, expected) in cases {
        let mut z = Zomboid::new(Cursor::new(setup_entries()));
        z.set_take(take);
        z.set_skip(skip);
        let table = z.stream().unwrap();
        assert_eq!(table.as_data().len(), expected);
    }
}

#[test]
fn window_preserves_order() {
    let mut z = Zomboid::new(Cursor::new(setup_entries()));
    z.set_skip(Some(1));
    z.set_take(Some(3));
    let table = z.stream().unwrap();
    let data = table.as_data();
    assert_eq!(data.len(), 3);
    assert_eq!(data[0].id, 2);
    assert_eq!(data[0].condition, "Good");
    assert_eq!(data[1].id, 2);
    assert_eq!(data[1].condition, "Mint");
    assert_eq!(data[2].id, 3);
    assert_eq!(data[2].name, "Garden saw");
}

#[test]
fn second_stream_continues() {
    // The cursor is single-pass: the second call does not restart.
    let mut z = Zomboid::new(Cursor::new(setup_entries()));
    z.set_take(Some(2));
    let first = z.stream().unwrap();
    assert_eq!(first.as_data()[0].id, 1);
    assert_eq!(first.as_data()[1].id, 2);

    let second = z.stream().unwrap();
    assert_eq!(second.as_data().len(), 2);
    assert_eq!(second.as_data()[0].id, 2);
    assert_eq!(second.as_data()[0].condition, "Mint");
    assert_eq!(second.as_data()[1].id, 3);

    let third = z.stream().unwrap();
    assert_eq!(third.as_data().len(), 1);
    assert_eq!(third.as_data()[0].id, 4);

    let fourth = z.stream().unwrap();
    assert_eq!(fourth.as_data().len(), 0);
}

#[test]
fn stream_fails_fast_on_error() {
    let entries = vec![
        Ok(item(1, "Hummer", "Tool", "Mint", 10)),
        Err(SourceError { message: "bad row".to_string() }),
        Ok(item(2, "Nails", "Fasteners", "Good", 400)),
    ];
    let mut z = Zomboid::new(Cursor::new(entries));
    let r = z.stream();
    assert!(r.is_err());
    assert_eq!(r.err().unwrap().message, "bad row");
}

#[test]
fn stream_fails_fast_while_skipping() {
    // An error met while skipping aborts the call too.
    let entries = vec![
        Err(SourceError { message: "bad first row".to_string() }),
        Ok(item(1, "Hummer", "Tool", "Mint", 10)),
    ];
    let mut z = Zomboid::new(Cursor::new(entries));
    z.set_skip(Some(1));
    let r = z.stream();
    assert!(r.is_err());
    assert_eq!(r.err().unwrap().message, "bad first row");
}

#[test]
fn take_zero_consumes_nothing() {
    let entries = vec![Err(SourceError { message: "never reached".to_string() })];
    let mut z = Zomboid::new(Cursor::new(entries));
    z.set_take(Some(0));
    z.set_skip(Some(3));
    let table = z.stream().unwrap();
    assert_eq!(table.as_data().len(), 0);
    // the error is still there for the next unbounded call
    z.set_take(None);
    z.set_skip(None);
    assert!(z.stream().is_err());
}

#[test]
fn describe_single_condition_is_whole() {
    let entries = vec![
        Ok(item(1, "Hummer", "Tool", "Mint", 10)),
        Ok(item(2, "Nails", "Fasteners", "Mint", 30)),
    ];
    let mut z = Zomboid::new(Cursor::new(entries));
    let table = z.describe().unwrap();
    let stats = table.as_data();
    assert_eq!(stats.len(), 1);
    assert_eq!(stats[0].name(), "Mint");
    assert_eq!(stats[0].numer(), 40);
    assert_eq!(stats[0].denom(), 40);
    assert_eq!(value(&stats[0]), 1.0);
}

#[test]
fn describe_empty_window() {
    let mut z = Zomboid::new(Cursor::new(Vec::new()));
    let table = z.describe().unwrap();
    assert_eq!(table.as_data().len(), 0);
}

#[test]
fn describe_zero_grand_total() {
    // All amounts zero: no shares are well-defined, so no statistics
    // and no NaN come out.
    let entries = vec![
        Ok(item(1, "Hummer", "Tool", "Mint", 0)),
        Ok(item(2, "Nails", "Fasteners", "Good", 0)),
    ];
    let mut z = Zomboid::new(Cursor::new(entries));
    let table = z.describe().unwrap();
    assert_eq!(table.as_data().len(), 0);
}

#[test]
fn describe_values_sum_to_one() {
    let mut z = Zomboid::new(Cursor::new(setup_entries()));
    let table = z.describe().unwrap();
    let stats = table.as_data();
    let sum: f64 = stats.iter().map(value).sum();
    assert!((sum - 1.0).abs() < 1e-9);
    for s in stats.iter() {
        let v = value(s);
        assert!(v.is_finite());
        assert!((0.0..=1.0).contains(&v));
    }
}

#[test]
fn describe_fails_fast_on_error() {
    let entries = vec![
        Ok(item(1, "Hummer", "Tool", "Mint", 10)),
        Err(SourceError { message: "bad row".to_string() }),
    ];
    let mut z = Zomboid::new(Cursor::new(entries));
    let r = z.describe();
    assert!(r.is_err());
    assert_eq!(r.err().unwrap().message, "bad row");
}

#[test]
fn end_to_end_example() {
    // skip 2, take 2 over the example records: the second Nails record
    // and the Garden saw.
    let mut z = Zomboid::new(Cursor::new(setup_entries()));
    z.set_skip(Some(2));
    z.set_take(Some(2));
    let table = z.stream().unwrap();
    let data = table.as_data();
    assert_eq!(data.len(), 2);
    assert_eq!(data[0].id, 2);
    assert_eq!(data[0].condition, "Mint");
    assert_eq!(data[1].id, 3);
    assert_eq!(data[1].name, "Garden saw");

    // describe over the full unwindowed sequence
    let mut z = Zomboid::new(Cursor::new(setup_entries()));
    let table = z.describe().unwrap();
    let stats = table.as_data();
    assert_eq!(stats.len(), 3);

    assert_eq!(stats[0].name(), "Mint");
    assert_eq!(stats[0].numer(), 110);
    assert_eq!(stats[0].denom(), 514);
    assert!((value(&stats[0]) - 0.214).abs() < 1e-3);

    assert_eq!(stats[1].name(), "Good");
    assert_eq!(stats[1].numer(), 400);
    assert_eq!(stats[1].denom(), 514);
    assert!((value(&stats[1]) - 0.778).abs() < 1e-3);

    assert_eq!(stats[2].name(), "New");
    assert_eq!(stats[2].numer(), 4);
    assert_eq!(stats[2].denom(), 514);
    assert!((value(&stats[2]) - 0.008).abs() < 1e-3);

    let rendered = table.render().unwrap();
    assert!(rendered.contains("21.4%"));
    assert!(rendered.contains("77.8%"));
    assert!(rendered.contains("00.8%"));
}

#[test]
fn describe_windowed() {
    let mut z = Zomboid::new(Cursor::new(setup_entries()));
    z.set_skip(Some(1));
    z.set_take(Some(2));
    let table = z.describe().unwrap();
    let stats = table.as_data();
    assert_eq!(stats.len(), 2);
    assert_eq!(stats[0].name(), "Good");
    assert_eq!(stats[0].numer(), 400);
    assert_eq!(stats[0].denom(), 500);
    assert_eq!(stats[1].name(), "Mint");
    assert_eq!(stats[1].numer(), 100);
    assert_eq!(stats[1].denom(), 500);
}

#[test]
fn cursor_is_forward_only() {
    let mut c = Cursor::new(setup_entries());
    assert_eq!(c.remaining(), 5);
    let first = c.next().unwrap().unwrap();
    assert_eq!(first.id, 1);
    assert_eq!(c.remaining(), 4);
    let second = c.next().unwrap().unwrap();
    assert_eq!(second.id, 2);
    let mut n = 2;
    while c.next().is_some() {
        n += 1;
    }
    assert_eq!(n, 5);
    assert_eq!(c.remaining(), 0);
    assert!(c.next().is_none());
}

#[test]
fn stat_holds_its_fraction() {
    let s = Stat::new("Rusty".to_string(), 1, 8);
    assert_eq!(s.name(), "Rusty");
    assert_eq!(s.numer(), 1);
    assert_eq!(s.denom(), 8);
    assert_eq!(value(&s), 0.125);
}

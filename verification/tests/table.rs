use zombo::model::Item;
use zombo::table::Table;
use zombo::table::TableError;

fn header() -> Vec<String> {
    vec![
        "ID".to_string(),
        "NAME".to_string(),
        "TYPE".to_string(),
        "CONDITION".to_string(),
        "AMOUNT".to_string(),
    ]
}

fn test_item() -> Item {
    Item {
        id: 1,
        name: "Test".to_string(),
        item_type: "Test".to_string(),
        condition: "Good".to_string(),
        amount: 10,
    }
}

#[test]
fn table_with_header() {
    let items = vec![test_item()];

    let table = Table::new(items).with_header(header());
    let table_string = table.render().unwrap();
    let rows: Vec<&str> = table_string.split("\n").collect();

    // 1 - header
    // 1 - item
    // 2 - top / bottom separators
    // 1 - middle separator
    assert_eq!(rows.len(), 1 + 1 + 2 + 1);
    for v in header().iter() {
        assert!(rows[1].contains(v));
    }

    let data = table.as_data();
    assert!(rows[3].contains(&format!("{}", data[0].id)));
    assert!(rows[3].contains(&data[0].name.to_string()));
    assert!(rows[3].contains(&data[0].item_type.to_string()));
    assert!(rows[3].contains(&data[0].condition.to_string()));
    assert!(rows[3].contains(&format!("{}", data[0].amount)));

    println!("{}", table_string);
}

#[test]
fn table_without_header() {
    let table = Table::new(vec![test_item()]);

    assert_eq!(table.as_data().len(), 1);
    assert_eq!(table.as_data()[0].id, 1);

    let table_string = table.render().unwrap();
    let rows: Vec<&str> = table_string.split("\n").collect();

    // 1 - item
    // 2 - top / bottom
    assert_eq!(rows.len(), 2 + 1);
    println!("{}", table_string);
}

#[test]
fn header_row_at_width_100() {
    let row = Item {
        id: 2,
        name: "Nails".to_string(),
        item_type: "Fasteners".to_string(),
        condition: "Good".to_string(),
        amount: 400,
    };
    let table = Table::new(vec![row]).with_header(header()).with_width(100);
    let rendered = table.render().unwrap();
    let lines: Vec<&str> = rendered.split("\n").collect();

    assert_eq!(lines.len(), 5);
    assert!(lines[0].starts_with('┌'));
    assert!(lines[0].ends_with('┐'));
    for v in header().iter() {
        assert!(lines[1].contains(v));
    }
    assert!(lines[2].starts_with('├'));
    assert!(lines[2].ends_with('┤'));
    assert!(lines[3].contains("2"));
    assert!(lines[3].contains("Nails"));
    assert!(lines[3].contains("Fasteners"));
    assert!(lines[3].contains("Good"));
    assert!(lines[3].contains("400"));
    assert!(lines[4].starts_with('└'));
    assert!(lines[4].ends_with('┘'));

    // every line is exactly 100 characters wide
    for line in lines.iter() {
        assert_eq!(line.chars().count(), 100);
    }
}

#[test]
fn exact_rendering() {
    let rows = vec![
        vec!["One".to_string(), "Two".to_string()],
        vec!["Six".to_string(), "Ten".to_string()],
    ];
    let table = Table::new(rows).with_width(12);
    let expected = "┌──────────┐\n\
                    │ One │ Two│\n\
                    │ Six │ Ten│\n\
                    └──────────┘";
    assert_eq!(table.render().unwrap(), expected);
}

#[test]
fn exact_rendering_with_header() {
    let rows = vec![vec!["xy".to_string(), "zw".to_string()]];
    let table = Table::new(rows)
        .with_header(vec!["AB".to_string(), "CD".to_string()])
        .with_width(10);
    let expected = "┌────────┐\n\
                    │ AB │ CD│\n\
                    ├────────┤\n\
                    │ xy │ zw│\n\
                    └────────┘";
    assert_eq!(table.render().unwrap(), expected);
}

#[test]
fn centering_puts_spare_space_on_the_right() {
    // one column, width 5: the cell is 2 wide, "A" sits left of the
    // spare character
    let table = Table::new(vec![vec!["A".to_string()]]).with_width(5);
    let expected = "┌───┐\n\
                    │ A │\n\
                    └───┘";
    assert_eq!(table.render().unwrap(), expected);
}

#[test]
fn empty_table_renders_borders_only() {
    let table = Table::<Item>::new(Vec::new()).with_width(6);
    assert_eq!(table.render().unwrap(), "┌────┐\n└────┘");
}

#[test]
fn undersized_width_is_rejected() {
    let table = Table::new(vec![test_item()]).with_width(19);
    // 19 / 5 columns leaves no room for a cell
    assert_eq!(table.render(), Err(TableError::WidthTooSmall));

    let table = Table::new(vec![test_item()]).with_width(1);
    assert!(table.render().is_err());

    // 20 / 5 gives each cell a single character: the narrowest allowed
    let table = Table::new(vec![test_item()]).with_width(20);
    assert!(table.render().is_ok());
}

#[test]
fn empty_header_is_rejected() {
    let table = Table::new(vec![test_item()]).with_header(Vec::new());
    assert_eq!(table.render(), Err(TableError::WidthTooSmall));
}

#[test]
fn last_width_wins() {
    let table = Table::new(vec![test_item()]).with_width(3).with_width(100);
    let rendered = table.render().unwrap();
    assert_eq!(rendered.split("\n").count(), 3);
    for line in rendered.split("\n") {
        assert_eq!(line.chars().count(), 100);
    }
}

#[test]
fn overlong_content_is_never_truncated() {
    let rows = vec![vec!["overflowing".to_string(), "y".to_string()]];
    let table = Table::new(rows).with_width(8);
    let rendered = table.render().unwrap();
    assert!(rendered.contains("overflowing"));
}

#[test]
fn percent_cell_is_zero_padded() {
    let stat = zombo::model::Stat::new("New".to_string(), 4, 514);
    let table = Table::new(vec![stat]).with_width(40);
    let rendered = table.render().unwrap();
    assert!(rendered.contains("00.8%"));
    assert!(rendered.contains("New"));
}

#[test]
fn percent_cell_of_the_whole() {
    let stat = zombo::model::Stat::new("Mint".to_string(), 7, 7);
    let table = Table::new(vec![stat]).with_width(40);
    assert!(table.render().unwrap().contains("100.0%"));
}

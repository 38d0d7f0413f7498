use cheatsheet::column::{Block, Column};
use cheatsheet::packer::{
    layout_sheet, leaves_no_room, pack_columns, reaches_last_row, LayoutParams, COLUMN_WIDTH,
    LABEL_WIDTH,
};
use cheatsheet::sheet::{CheatSheet, Environment, Input};

fn env(name: &str, prefix: &str, n: usize) -> Environment {
    let inputs = (0..n)
        .map(|i| Input { input: format!("**k{}", i), description: format!("does {}", i) })
        .collect();
    Environment { environment: name.to_string(), prefix: prefix.to_string(), inputs }
}

fn names(sheet: &CheatSheet) -> Vec<String> {
    sheet.environments.iter().map(|e| e.environment.clone()).collect()
}

fn rows_in(columns: &[Column]) -> usize {
    columns
        .iter()
        .map(|c| c.blocks().iter().filter(|b| matches!(b, Block::Row(..))).count())
        .sum()
}

#[test]
fn two_environments_share_one_column_largest_first() {
    let sheet = CheatSheet { environments: vec![env("small", "", 2), env("large", "", 3)] };
    let columns = layout_sheet(sheet, LayoutParams::with_height(100));
    assert_eq!(columns.len(), 1);
    let blocks = columns[0].blocks();
    assert_eq!(blocks.len(), 10);
    assert!(matches!(&blocks[0], Block::Header(n) if n == "large"));
    assert!(matches!(blocks[1], Block::Spacer));
    for b in &blocks[2..5] {
        assert!(matches!(b, Block::Row(..)));
    }
    assert!(matches!(blocks[5], Block::Spacer));
    assert!(matches!(&blocks[6], Block::Header(n) if n == "small"));
    assert!(matches!(blocks[7], Block::Spacer));
    assert!(matches!(blocks[8], Block::Row(..)));
    assert!(matches!(blocks[9], Block::Row(..)));
}

#[test]
fn long_environment_splits_into_continuation_columns() {
    let sheet = CheatSheet { environments: vec![env("big", "", 50)] };
    let p = LayoutParams::with_height(20);
    let mut columns = layout_sheet(sheet, p);
    assert!(columns.len() > 1);
    assert_eq!(columns.len(), 3);
    assert_eq!(rows_in(&columns), 50);
    for (k, c) in columns.iter_mut().enumerate() {
        assert!(c.height(p.width) <= 19);
        let blocks = c.blocks();
        let headers = blocks.iter().filter(|b| matches!(b, Block::Header(_))).count();
        if k == 0 {
            assert_eq!(headers, 1);
        } else {
            assert_eq!(headers, 0);
            assert!(matches!(blocks[0], Block::Spacer));
            assert!(matches!(blocks[1], Block::Spacer));
            assert!(matches!(blocks[2], Block::Row(..)));
        }
    }
    assert_eq!(columns[0].height(p.width), 19);
}

#[test]
fn empty_sheet_gives_no_columns() {
    let sheet = CheatSheet { environments: vec![] };
    let columns = layout_sheet(sheet, LayoutParams::with_height(30));
    assert_eq!(columns.len(), 0);
    assert_eq!(rows_in(&columns), 0);
}

#[test]
fn every_input_gives_exactly_one_row() {
    let sheet = CheatSheet {
        environments: vec![env("a", "", 7), env("b", "", 0), env("c", "", 12), env("d", "", 3)],
    };
    let columns = layout_sheet(sheet, LayoutParams::with_height(12));
    assert_eq!(rows_in(&columns), 22);
}

#[test]
fn columns_stay_below_the_last_usable_row() {
    let sheet = CheatSheet {
        environments: vec![env("a", "", 9), env("b", "", 4), env("c", "", 6), env("d", "", 1)],
    };
    let p = LayoutParams::with_height(10);
    let mut columns = layout_sheet(sheet, p);
    assert!(columns.len() > 1);
    for c in columns.iter_mut() {
        assert!(c.height(p.width) <= 9);
    }
}

#[test]
fn rows_use_their_own_environments_prefix() {
    let sheet = CheatSheet { environments: vec![env("vim", "<C-w>", 1), env("tmux", "C-b ", 1)] };
    let columns = pack_columns(&sheet.environments, LayoutParams::with_height(100));
    let labels: Vec<String> = columns
        .iter()
        .flat_map(|c| c.blocks().iter())
        .filter_map(|b| match b {
            Block::Row(label, _) => Some(label.clone()),
            _ => None,
        })
        .collect();
    assert_eq!(labels, vec!["<C-w>k0         ".to_string(), "C-b k0          ".to_string()]);
}

#[test]
fn soft_threshold_starts_a_new_column_between_environments() {
    // header, spacer and 13 rows measure 15 = 20 - 5: the next environment opens a new column
    let sheet = CheatSheet { environments: vec![env("a", "", 13), env("b", "", 2)] };
    let columns = layout_sheet(sheet, LayoutParams::with_height(20));
    assert_eq!(columns.len(), 2);
    assert!(matches!(&columns[1].blocks()[0], Block::Header(n) if n == "b"));
}

#[test]
fn measured_height_counts_rendered_rows() {
    let mut c = Column::new();
    assert_eq!(c.height(COLUMN_WIDTH), 0);
    c.push_header("env".to_string());
    c.push_spacer();
    c.push_row("k               ".to_string(), "short".to_string());
    assert_eq!(c.len(), 3);
    assert_eq!(c.height(COLUMN_WIDTH), 3);
    let long = "word ".repeat(30);
    c.push_row("k               ".to_string(), long);
    assert!(c.height(COLUMN_WIDTH) > 4);
}

#[test]
fn layout_order_is_descending_and_stable() {
    let sheet = CheatSheet {
        environments: vec![env("a", "", 1), env("b", "", 3), env("c", "", 1), env("d", "", 3), env("e", "", 2)],
    };
    let sorted = sheet.ordered_for_layout();
    assert_eq!(names(&sorted), vec!["b", "d", "e", "a", "c"]);
    let again = sorted.clone().ordered_for_layout();
    assert_eq!(names(&again), names(&sorted));
}

#[test]
fn default_widths() {
    let p = LayoutParams::with_height(24);
    assert_eq!(p.max_height, 24);
    assert_eq!(COLUMN_WIDTH, 48);
    assert_eq!(LABEL_WIDTH, 16);
    assert_eq!(p.label_width, 16);
}

#[test]
fn thresholds_on_given_heights() {
    assert!(reaches_last_row(19, 20));
    assert!(!reaches_last_row(18, 20));
    assert!(!reaches_last_row(20, 20));
    assert!(!reaches_last_row(0, 0));
    assert!(reaches_last_row(0, 1));
    assert!(leaves_no_room(15, 20));
    assert!(leaves_no_room(17, 20));
    assert!(!leaves_no_room(14, 20));
    assert!(leaves_no_room(0, 4));
}

#[test]
fn headings_come_out_in_layout_order() {
    let sheet = CheatSheet {
        environments: vec![env("a", "", 2), env("b", "", 5), env("c", "", 2), env("d", "", 9)],
    };
    let columns = layout_sheet(sheet, LayoutParams::with_height(14));
    let headings: Vec<String> = columns
        .iter()
        .flat_map(|c| c.blocks().iter())
        .filter_map(|b| match b {
            Block::Header(n) => Some(n.clone()),
            _ => None,
        })
        .collect();
    assert_eq!(headings, vec!["d", "b", "a", "c"]);
    for c in &columns {
        let blocks = c.blocks();
        let heading_first = matches!(blocks[0], Block::Header(_));
        let continued = blocks.len() >= 3
            && matches!(blocks[0], Block::Spacer)
            && matches!(blocks[1], Block::Spacer)
            && matches!(blocks[2], Block::Row(..));
        assert!(heading_first || continued);
    }
}

use zaroxi_interface_desktop::terminal_grid::{decoration_from_grid, GridCell};

const FG: u32 = 0;
const BG: u32 = 1;
const RED: u32 = 2;
const GREEN: u32 = 3;

fn cell(ch: char, fg: u32, bg: u32) -> GridCell {
    GridCell { ch, fg, bg, wide_continuation: false }
}

#[test]
fn decoration_projects_text_bg_and_cursor() {
    // 1 row × 4 cols: "hi" red fg; col 2 carries a colored bg; trailing blank.
    let mut cells = vec![cell(' ', FG, BG); 4];
    cells[0] = cell('h', RED, BG);
    cells[1] = cell('i', RED, BG);
    cells[2] = cell(' ', FG, GREEN);
    let dec = decoration_from_grid(&vec![cells], "T".to_string(), (0, 2, true), FG, BG);
    assert!(dec.content_spans.iter().any(|(t, c)| t == "hi" && *c == RED), "expected coalesced red 'hi' run");
    assert!(
        dec.cell_bg.iter().any(|&(r, s, l, col)| r == 0 && s == 2 && l == 1 && col == GREEN),
        "expected a colored background run at col 2"
    );
    assert_eq!(dec.cursor, Some((0, 2)));
    assert_eq!(dec.content, "hi\n");
    assert_eq!(dec.content_spans, vec![("hi".to_string(), RED), ("\n".to_string(), FG)]);
    assert_eq!(dec.title, "T");
}

#[test]
fn hidden_cursor_is_not_emitted() {
    let cells = vec![cell(' ', FG, BG); 2];
    let dec = decoration_from_grid(&vec![cells], "T".to_string(), (0, 0, false), FG, BG);
    assert_eq!(dec.cursor, None);
    assert_eq!(dec.content, "\n");
    assert_eq!(dec.content_spans, vec![("\n".to_string(), FG)]);
    assert!(dec.cell_bg.is_empty());
}

#[test]
fn runs_split_by_color_and_skip_wide_halves() {
    let mut row = vec![cell('a', RED, GREEN), cell('b', RED, GREEN), cell('c', FG, BG), cell('d', FG, GREEN)];
    row.push(GridCell { ch: ' ', fg: FG, bg: GREEN, wide_continuation: true });
    row.push(cell('e', FG, GREEN));
    let dec = decoration_from_grid(&vec![row, vec![cell('z', FG, BG)]], String::new(), (1, 0, true), FG, BG);
    assert_eq!(dec.content, "abcde\nz\n");
    assert_eq!(
        dec.content_spans,
        vec![
            ("ab".to_string(), RED),
            ("cde".to_string(), FG),
            ("\n".to_string(), FG),
            ("z".to_string(), FG),
            ("\n".to_string(), FG),
        ]
    );
    assert_eq!(dec.cell_bg, vec![(0, 0, 2, GREEN), (0, 3, 3, GREEN)]);
}

//! Right-zone panel: caret position and selection.
use vstd::prelude::*;
use crate::status_bar::model::StatusModel;
use crate::text::{dec, push_decimal, push_str, string_from_chars, strings_view};

verus! {

/// For an open file: `Ln L, Col C` (1-based), then `Sel N` or
/// `Sel N (K ln)` for a multi-line selection.
pub open spec fn position_segments_spec(m: StatusModel) -> Seq<Seq<char>> {
    if !m.has_file {
        Seq::empty()
    } else {
        let pos = "Ln "@ + dec((m.line + 1) as nat) + ", Col "@ + dec((m.column + 1) as nat);
        match m.selection {
            Some(sel) => if sel.lines > 1 {
                seq![pos, "Sel "@ + dec(sel.chars as nat) + " ("@ + dec(sel.lines as nat) + " ln)"@]
            } else {
                seq![pos, "Sel "@ + dec(sel.chars as nat)]
            },
            None => seq![pos],
        }
    }
}

/// Build the position segment(s).
pub fn segments(model: &StatusModel) -> (r: Vec<String>)
    requires
        model.line < u64::MAX,
        model.column < u64::MAX,
    ensures
        strings_view(r@) == position_segments_spec(*model),
{
    let mut out: Vec<String> = Vec::new();
    if !model.has_file {
        proof {
            assert(strings_view(out@) =~= position_segments_spec(*model));
        }
        return out;
    }
    let mut pos: Vec<char> = Vec::new();
    push_str(&mut pos, "Ln ");
    push_decimal(&mut pos, model.line as u64 + 1);
    push_str(&mut pos, ", Col ");
    push_decimal(&mut pos, model.column as u64 + 1);
    out.push(string_from_chars(pos.as_slice()));
    let ghost p = "Ln "@ + dec((model.line + 1) as nat) + ", Col "@ + dec((model.column + 1) as nat);
    assert(pos@ =~= p);
    match &model.selection {
        Some(sel) => {
            let mut t: Vec<char> = Vec::new();
            push_str(&mut t, "Sel ");
            push_decimal(&mut t, sel.chars as u64);
            if sel.lines > 1 {
                push_str(&mut t, " (");
                push_decimal(&mut t, sel.lines as u64);
                push_str(&mut t, " ln)");
                assert(t@ =~= "Sel "@ + dec(sel.chars as nat) + " ("@ + dec(sel.lines as nat) + " ln)"@);
            } else {
                assert(t@ =~= "Sel "@ + dec(sel.chars as nat));
            }
            out.push(string_from_chars(t.as_slice()));
        },
        None => {},
    }
    proof {
        assert(strings_view(out@) =~= position_segments_spec(*model));
    }
    out
}

} // verus!

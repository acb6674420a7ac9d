use eta_buffer::buffer::Buffer;
use eta_buffer::view::BufferView;
use eta_buffer::{Location, load_prebuilt_syntax, load_prebuilt_theme};

fn rust_view(text: &str) -> BufferView {
    let theme = load_prebuilt_theme("base16-ocean.dark").expect("theme");
    let syntax = load_prebuilt_syntax("Rust").expect("syntax");
    BufferView::new(Buffer::new(text), syntax, theme)
}

fn joined(line: &[(eta_buffer::SpanStyle, String)]) -> String {
    let mut s = String::new();
    for (_, t) in line {
        s.push_str(t);
    }
    s
}

#[test]
fn unknown_assets_are_absent() {
    assert!(load_prebuilt_theme("no such theme").is_none());
    assert!(load_prebuilt_syntax("no such syntax").is_none());
    assert!(load_prebuilt_theme("base16-ocean.dark").is_some());
    assert!(load_prebuilt_syntax("Rust").is_some());
}

#[test]
fn spans_reconstruct_lines() {
    let mut v = rust_view("fn main() {\n\t5 + 5\n}");
    let out = v.style_lines(0, 3);
    assert_eq!(out.len(), 3);
    assert_eq!(joined(&out[0]), "fn main() {");
    assert_eq!(joined(&out[1]), "\t5 + 5");
    assert_eq!(joined(&out[2]), "}");
}

#[test]
fn end_to_end_insert_shifts_lines() {
    let mut v = rust_view("fn main() {\n\t5 + 5\n}");
    let before = v.style_lines(0, 3);
    assert_eq!(before.len(), 3);

    let mut h = v.buffer_mut();
    h.insert(Location(0, 0), "// comment\n");
    let mut v = h.drop();

    let after = v.style_lines(0, 4);
    assert_eq!(after.len(), 4);
    assert_eq!(joined(&after[0]), "// comment");
    for i in 0..3 {
        assert_eq!(after[i + 1], before[i]);
    }
}

#[test]
fn warm_cache_matches_cold_cache() {
    let mut cold = rust_view("let a = 1;\nlet b = 2;\nlet c = 3;\nlet d = 4;");
    let mut warm = rust_view("let a = 1;\nlet b = 2;\nlet c = 3;\nlet d = 4;");
    // warm the second view's cache at several points first
    let _ = warm.style_lines(2, 4);
    let _ = warm.style_lines(1, 2);
    let a = cold.style_lines(0, 4);
    let b = warm.style_lines(0, 4);
    assert_eq!(a, b);
}

#[test]
fn repeated_calls_are_stable() {
    let mut v = rust_view("fn f() {}\nfn g() {}");
    let first = v.style_lines(0, 2);
    let second = v.style_lines(0, 2);
    let third = v.style_lines(1, 2);
    assert_eq!(first, second);
    assert_eq!(&first[1..], &third[..]);
}

#[test]
fn edit_below_keeps_lines_above() {
    let mut v = rust_view("let a = 1;\nlet b = 2;\nlet c = 3;\nlet d = 4;");
    let before = v.style_lines(0, 2);

    let mut h = v.buffer_mut();
    h.insert(Location(2, 0), "let x = 9;\n");
    let mut v = h.drop();

    let after = v.style_lines(0, 2);
    assert_eq!(before, after);
}

#[test]
fn batched_edits_invalidate_once_and_render_fresh() {
    let mut v = rust_view("let a = 1;\nlet b = 2;\nlet c = 3;");
    let _ = v.style_lines(0, 3);

    let mut h = v.buffer_mut();
    h.insert(Location(2, 0), "let y = 8;\n");
    h.insert(Location(1, 0), "let x = 9;\n");
    let mut v = h.drop();

    let out = v.style_lines(0, 5);
    assert_eq!(out.len(), 5);
    assert_eq!(joined(&out[0]), "let a = 1;");
    assert_eq!(joined(&out[1]), "let x = 9;");
    assert_eq!(joined(&out[2]), "let b = 2;");
    assert_eq!(joined(&out[3]), "let y = 8;");
    assert_eq!(joined(&out[4]), "let c = 3;");
}

#[test]
fn undo_through_handle_restores_rendering() {
    let mut v = rust_view("fn main() {\n\t5 + 5\n}");
    let before = v.style_lines(0, 3);

    let mut h = v.buffer_mut();
    h.insert(Location(0, 0), "// comment\n");
    let mut v = h.drop();
    let _ = v.style_lines(0, 4);

    let mut h = v.buffer_mut();
    assert!(h.undo());
    let mut v = h.drop();
    let restored = v.style_lines(0, 3);
    assert_eq!(before, restored);
}

#[test]
fn redo_through_handle_restores_edit() {
    let mut v = rust_view("fn a() {}\nfn b() {}");
    let mut h = v.buffer_mut();
    h.insert(Location(1, 0), "// note\n");
    let mut v = h.drop();
    let edited = v.style_lines(0, 3);

    let mut h = v.buffer_mut();
    assert!(h.undo());
    assert!(h.redo());
    let mut v = h.drop();
    assert_eq!(v.style_lines(0, 3), edited);
}

#[test]
fn empty_scope_keeps_cache_and_output() {
    let mut v = rust_view("fn main() {}\n");
    let before = v.style_lines(0, 1);
    let h = v.buffer_mut();
    let mut v = h.drop();
    assert_eq!(v.style_lines(0, 1), before);
}

#[test]
fn ranges_are_clipped() {
    let mut v = rust_view("one\ntwo");
    assert_eq!(v.style_lines(0, 10).len(), 2);
    assert_eq!(v.style_lines(5, 10).len(), 0);
    assert_eq!(v.style_lines(1, 1).len(), 0);
    assert_eq!(v.style_lines(2, 1).len(), 0);
}

#[test]
fn empty_buffer_renders_nothing() {
    let theme = load_prebuilt_theme("base16-ocean.dark").expect("theme");
    let syntax = load_prebuilt_syntax("Rust").expect("syntax");
    let mut v = BufferView::new(Buffer::empty(), syntax, theme);
    assert_eq!(v.style_lines(0, 3).len(), 0);
}

#[test]
fn delete_through_handle() {
    let mut v = rust_view("let aa = 1;\nlet bb = 2;\n");
    let mut h = v.buffer_mut();
    h.delete(Location(0, 4), Location(0, 6));
    let mut v = h.drop();
    let out = v.style_lines(0, 2);
    assert_eq!(joined(&out[0]), "let  = 1;");
    assert_eq!(joined(&out[1]), "let bb = 2;");
}

#[test]
fn invalidate_from_edit_reconciles_direct_edits() {
    let mut v = rust_view("let a = 1;\nlet b = 2;\nlet c = 3;");
    let _ = v.style_lines(0, 3);
    let since = v.buffer().current_id();
    v.buffer.insert(Location(1, 0), "let z = 0;\n");
    v.invalidate_from_edit(since);
    let out = v.style_lines(0, 4);
    assert_eq!(joined(&out[0]), "let a = 1;");
    assert_eq!(joined(&out[1]), "let z = 0;");
    assert_eq!(joined(&out[2]), "let b = 2;");
    assert_eq!(joined(&out[3]), "let c = 3;");
    // a fresh view over the same text renders identically
    let mut fresh = rust_view("let a = 1;\nlet z = 0;\nlet b = 2;\nlet c = 3;");
    assert_eq!(fresh.style_lines(0, 4), out);
}

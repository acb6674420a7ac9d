use eta_buffer::{HiState, load_prebuilt_syntax, load_prebuilt_theme};

fn joined(line: &[(eta_buffer::SpanStyle, String)]) -> String {
    let mut s = String::new();
    for (_, t) in line {
        s.push_str(t);
    }
    s
}

#[test]
fn highlight_one_line_reconstructs_it() {
    let theme = load_prebuilt_theme("base16-ocean.dark").expect("theme");
    let syntax = load_prebuilt_syntax("Rust").expect("syntax");
    let mut h = HiState::new(theme, syntax);
    let spans = h.highlight_and_advance_line("fn main() {");
    assert!(!spans.is_empty());
    assert_eq!(joined(&spans), "fn main() {");
}

#[test]
fn same_trace_same_spans() {
    let theme = load_prebuilt_theme("base16-ocean.dark").expect("theme");
    let syntax = load_prebuilt_syntax("Rust").expect("syntax");
    let mut a = HiState::new(theme, syntax);
    a.advanced_line("fn main() {");
    let b = a.duplicate();
    let mut c = b;
    let left = a.highlight_and_advance_line("\t5 + 5");
    let right = c.highlight_and_advance_line("\t5 + 5");
    assert_eq!(left, right);
}

#[test]
fn keyword_and_plain_text_differ() {
    let theme = load_prebuilt_theme("base16-ocean.dark").expect("theme");
    let syntax = load_prebuilt_syntax("Rust").expect("syntax");
    let mut h = HiState::new(theme, syntax);
    let spans = h.highlight_and_advance_line("let x = 1;");
    // the line is split into more than one span, so the highlighter did work
    assert!(spans.len() > 1);
}

#[test]
fn set_theme_keeps_highlighting_working() {
    let theme = load_prebuilt_theme("base16-ocean.dark").expect("theme");
    let syntax = load_prebuilt_syntax("Rust").expect("syntax");
    let mut h = HiState::new(theme, syntax);
    h.advanced_line("fn main() {");
    let other = load_prebuilt_theme("InspiredGitHub").expect("theme");
    h.set_theme(other);
    let spans = h.highlight_and_advance_line("\t5 + 5");
    assert_eq!(joined(&spans), "\t5 + 5");
}

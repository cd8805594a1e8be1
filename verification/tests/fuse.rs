use gradblame::color::{palette, Rgb};
use gradblame::fuse::{
    fuse_line, fuse_lines, is_sentinel, normalize_hash, resolve_rank, split_annotation,
};
use gradblame::gradient::Gradient;
use gradblame::revindex::RevisionIndex;

fn b(s: &str) -> Vec<u8> {
    s.as_bytes().to_vec()
}

fn lines(strs: &[&str]) -> Vec<Vec<u8>> {
    strs.iter().map(|s| s.as_bytes().to_vec()).collect()
}

#[test]
fn split_at_first_space_keeps_remainder_verbatim() {
    let (hash_raw, remainder) = split_annotation(&b("abc123 x  y"));
    assert_eq!(hash_raw, b("abc123"));
    assert_eq!(remainder, b(" x  y"));
}

#[test]
fn split_without_space_is_all_identifier() {
    let (hash_raw, remainder) = split_annotation(&b("abc123"));
    assert_eq!(hash_raw, b("abc123"));
    assert_eq!(remainder, b(""));
}

#[test]
fn normalize_strips_boundary_marker() {
    assert_eq!(normalize_hash(&b("^abc123456789")), b("abc123456789"));
}

#[test]
fn normalize_strips_trailing_overhang() {
    assert_eq!(normalize_hash(&b("abc1234567890")), b("abc123456789"));
}

#[test]
fn normalize_keeps_short_identifiers() {
    assert_eq!(normalize_hash(&b("a")), b("a"));
    assert_eq!(normalize_hash(&b("")), b(""));
    assert_eq!(normalize_hash(&b("^")), b("^"));
}

#[test]
fn sentinel_is_twelve_zeros() {
    assert!(is_sentinel(&b("000000000000")));
    assert!(!is_sentinel(&b("00000000000")));
    assert!(!is_sentinel(&b("0000000000000")));
    assert!(!is_sentinel(&b("000000000001")));
}

#[test]
fn sentinel_resolves_to_rank_zero_whatever_the_index_holds() {
    let idx = RevisionIndex::build(&lines(&["x", "y", "000000000000"]));
    assert_eq!(resolve_rank(&idx, &b("000000000000")), 0);
    let empty = RevisionIndex::build(&lines(&[]));
    assert_eq!(resolve_rank(&empty, &b("000000000000")), 0);
}

#[test]
fn present_identifier_resolves_to_its_rank() {
    let idx = RevisionIndex::build(&lines(&["r1", "r2", "r3"]));
    assert_eq!(resolve_rank(&idx, &b("r1")), 0);
    assert_eq!(resolve_rank(&idx, &b("r2")), 1);
    assert_eq!(resolve_rank(&idx, &b("r3")), 2);
}

#[test]
fn absent_identifier_resolves_to_last_rank() {
    let idx = RevisionIndex::build(&lines(&["r1", "r2", "r3"]));
    assert_eq!(resolve_rank(&idx, &b("zz")), 2);
}

#[test]
fn present_identifier_gets_its_rank_color() {
    let idx = RevisionIndex::build(&lines(&["r1", "r2", "r3"]));
    let entry = palette(0);
    let grad = Gradient::build(entry.back_start, entry.back_end, 3);
    let rank = resolve_rank(&idx, &b("r2"));
    assert_eq!(rank, 1);
    let back = grad.at(rank);
    assert_eq!(back, Rgb::new(168, 197, 191));
    let fused = fuse_line(&entry.fore, &grad, &idx, &b("r2x hello"), &b("code"));
    let expect = format!(
        "\u{2502}\u{1b}[38;2;60;62;63m\u{1b}[48;2;168;197;191mr2 hello\u{1b}[0m\u{2502}code"
    );
    assert_eq!(fused, expect.as_bytes().to_vec());
}

#[test]
fn end_to_end_single_line() {
    let idx = RevisionIndex::build(&lines(&["r1", "r2", "r3"]));
    let entry = palette(0);
    let grad = Gradient::build(entry.back_start, entry.back_end, 3);
    let fused = fuse_line(&entry.fore, &grad, &idx, &b("r2x hello"), &b("print('hi')"));
    let expect = format!(
        "\u{2502}\u{1b}[38;2;60;62;63m\u{1b}[48;2;168;197;191mr2 hello\u{1b}[0m\u{2502}print('hi')"
    );
    assert_eq!(fused, expect.as_bytes().to_vec());
}

#[test]
fn fused_escape_uses_all_decimal_widths() {
    let idx = RevisionIndex::build(&lines(&[]));
    let grad = Gradient::build(Rgb::new(0, 0, 0), Rgb::new(0, 0, 0), 1);
    let fused = fuse_line(&Rgb::new(5, 0, 255), &grad, &idx, &b("x t"), &b("T"));
    let expect = format!("\u{2502}\u{1b}[38;2;5;0;255m\u{1b}[48;2;0;0;0mx t\u{1b}[0m\u{2502}T");
    assert_eq!(fused, expect.as_bytes().to_vec());
}

#[test]
fn uncommitted_line_gets_rank_zero_color() {
    let idx = RevisionIndex::build(&lines(&["r1", "r2", "r3"]));
    let entry = palette(0);
    let grad = Gradient::build(entry.back_start, entry.back_end, 3);
    // The annotation tool emits one overhang character, so the sentinel
    // arrives as thirteen zeros and normalizes to twelve.
    let fused = fuse_line(&entry.fore, &grad, &idx, &b("0000000000000 local"), &b("x"));
    let expect =
        "\u{2502}\u{1b}[38;2;60;62;63m\u{1b}[48;2;140;194;184m000000000000 local\u{1b}[0m\u{2502}x";
    assert_eq!(fused, expect.as_bytes().to_vec());
}

#[test]
fn boundary_marker_line_resolves_without_trailing_trim() {
    let idx = RevisionIndex::build(&lines(&["r1", "r2", "r3"]));
    let entry = palette(0);
    let grad = Gradient::build(entry.back_start, entry.back_end, 3);
    let fused = fuse_line(&entry.fore, &grad, &idx, &b("^r1 old line"), &b("y"));
    let expect =
        "\u{2502}\u{1b}[38;2;60;62;63m\u{1b}[48;2;140;194;184mr1 old line\u{1b}[0m\u{2502}y";
    assert_eq!(fused, expect.as_bytes().to_vec());
}

#[test]
fn misaligned_streams_stop_at_text_end() {
    let idx = RevisionIndex::build(&lines(&["r1", "r2"]));
    let entry = palette(0);
    let grad = Gradient::build(entry.back_start, entry.back_end, 2);
    let ann = lines(&["r1x a", "r1x b", "r2x c", "r2x d", "r2x e"]);
    let text = lines(&["one", "two", "three"]);
    let outcome = fuse_lines(&entry.fore, &grad, &idx, &ann, &text);
    assert_eq!(outcome.lines.len(), 3);
    assert!(outcome.aborted);
}

#[test]
fn aligned_streams_fuse_every_line() {
    let idx = RevisionIndex::build(&lines(&["r1", "r2"]));
    let entry = palette(3);
    let grad = Gradient::build(entry.back_start, entry.back_end, 2);
    let ann = lines(&["r1x a", "r2x b"]);
    let text = lines(&["one", "two"]);
    let outcome = fuse_lines(&entry.fore, &grad, &idx, &ann, &text);
    assert_eq!(outcome.lines.len(), 2);
    assert!(!outcome.aborted);
    let first = fuse_line(&entry.fore, &grad, &idx, &ann[0], &text[0]);
    assert_eq!(outcome.lines[0], first);
}

use merge_arms::ArmBody;
use merge_arms::MatchArm;
use merge_arms::MergeEdit;
use merge_arms::Pat;
use merge_arms::merge_match_arms;

/// Splits a source text with a `<|>` cursor marker into the cursor offset
/// and the text without the marker.
fn cursor_of(marked: &str) -> (usize, String) {
    let pos = marked.find("<|>").expect("no cursor marker in the source");
    (pos, marked.replace("<|>", ""))
}

fn pat(text: &str) -> Pat {
    if text == "_" {
        Pat::Placeholder
    } else {
        Pat::Other(text.to_string())
    }
}

/// Builds the arm whose rendered text is `arm_text`, locating its range in
/// `src`; the body is the trailing occurrence of `body_text` in the arm.
fn arm(src: &str, arm_text: &str, pats: &[&str], body_text: &str, has_guard: bool) -> MatchArm {
    let start = src.find(arm_text).expect("arm text not in source");
    let body_rel = arm_text.rfind(body_text).expect("body text not in arm");
    MatchArm {
        pats: pats.iter().map(|p| pat(p)).collect(),
        has_guard,
        body: Some(ArmBody {
            text: body_text.to_string(),
            start: start + body_rel,
            end: start + body_rel + body_text.len(),
        }),
        start,
        end: start + arm_text.len(),
    }
}

/// Applies the edit to the source text and re-inserts the cursor marker at
/// the remapped offset.
fn apply(src: &str, e: &MergeEdit) -> String {
    let mut out = String::new();
    out.push_str(&src[..e.replace_start]);
    out.push_str(&e.replacement);
    out.push_str(&src[e.replace_end..]);
    let mut with_cursor = String::new();
    with_cursor.push_str(&out[..e.cursor]);
    with_cursor.push_str("<|>");
    with_cursor.push_str(&out[e.cursor..]);
    with_cursor
}

#[test]
fn merge_match_arms_single_patterns() {
    let before = r#"
            #[derive(Debug)]
            enum X { A, B, C }

            fn main() {
                let x = X::A;
                let y = match x {
                    X::A => { 1i32<|> }
                    X::B => { 1i32 }
                    X::C => { 2i32 }
                }
            }
            "#;
    let after = r#"
            #[derive(Debug)]
            enum X { A, B, C }

            fn main() {
                let x = X::A;
                let y = match x {
                    X::A | X::B => { 1i32<|> }
                    X::C => { 2i32 }
                }
            }
            "#;
    let (cursor, src) = cursor_of(before);
    let arms = vec![
        arm(&src, "X::A => { 1i32 }", &["X::A"], "{ 1i32 }", false),
        arm(&src, "X::B => { 1i32 }", &["X::B"], "{ 1i32 }", false),
        arm(&src, "X::C => { 2i32 }", &["X::C"], "{ 2i32 }", false),
    ];
    let edit = merge_match_arms(&arms, cursor).expect("the assist applies");
    assert_eq!(apply(&src, &edit), after);
}

#[test]
fn merge_match_arms_multiple_patterns() {
    let before = r#"
            #[derive(Debug)]
            enum X { A, B, C, D, E }

            fn main() {
                let x = X::A;
                let y = match x {
                    X::A | X::B => {<|> 1i32 },
                    X::C | X::D => { 1i32 },
                    X::E => { 2i32 },
                }
            }
            "#;
    let after = r#"
            #[derive(Debug)]
            enum X { A, B, C, D, E }

            fn main() {
                let x = X::A;
                let y = match x {
                    X::A | X::B | X::C | X::D => {<|> 1i32 },
                    X::E => { 2i32 },
                }
            }
            "#;
    let (cursor, src) = cursor_of(before);
    let arms = vec![
        arm(&src, "X::A | X::B => { 1i32 }", &["X::A", "X::B"], "{ 1i32 }", false),
        arm(&src, "X::C | X::D => { 1i32 }", &["X::C", "X::D"], "{ 1i32 }", false),
        arm(&src, "X::E => { 2i32 }", &["X::E"], "{ 2i32 }", false),
    ];
    let edit = merge_match_arms(&arms, cursor).expect("the assist applies");
    assert_eq!(apply(&src, &edit), after);
}

#[test]
fn merge_match_arms_placeholder_pattern() {
    let before = r#"
            #[derive(Debug)]
            enum X { A, B, C, D, E }

            fn main() {
                let x = X::A;
                let y = match x {
                    X::A => { 1i32 },
                    X::B => { 2i<|>32 },
                    _ => { 2i32 }
                }
            }
            "#;
    let after = r#"
            #[derive(Debug)]
            enum X { A, B, C, D, E }

            fn main() {
                let x = X::A;
                let y = match x {
                    X::A => { 1i32 },
                    _ => { 2i<|>32 }
                }
            }
            "#;
    let (cursor, src) = cursor_of(before);
    let arms = vec![
        arm(&src, "X::A => { 1i32 }", &["X::A"], "{ 1i32 }", false),
        arm(&src, "X::B => { 2i32 }", &["X::B"], "{ 2i32 }", false),
        arm(&src, "_ => { 2i32 }", &["_"], "{ 2i32 }", false),
    ];
    let edit = merge_match_arms(&arms, cursor).expect("the assist applies");
    assert_eq!(apply(&src, &edit), after);
}

#[test]
fn merges_all_subsequent_arms() {
    let before = r#"
            enum X { A, B, C, D, E }

            fn main() {
                match X::A {
                    X::A<|> => 92,
                    X::B => 92,
                    X::C => 92,
                    X::D => 62,
                    _ => panic!(),
                }
            }
            "#;
    let after = r#"
            enum X { A, B, C, D, E }

            fn main() {
                match X::A {
                    X::A<|> | X::B | X::C => 92,
                    X::D => 62,
                    _ => panic!(),
                }
            }
            "#;
    let (cursor, src) = cursor_of(before);
    let arms = vec![
        arm(&src, "X::A => 92", &["X::A"], "92", false),
        arm(&src, "X::B => 92", &["X::B"], "92", false),
        arm(&src, "X::C => 92", &["X::C"], "92", false),
        arm(&src, "X::D => 62", &["X::D"], "62", false),
        arm(&src, "_ => panic!()", &["_"], "panic!()", false),
    ];
    let edit = merge_match_arms(&arms, cursor).expect("the assist applies");
    assert_eq!(apply(&src, &edit), after);
}

#[test]
fn merge_match_arms_rejects_guards() {
    let before = r#"
            #[derive(Debug)]
            enum X {
                A(i32),
                B,
                C
            }

            fn main() {
                let x = X::A;
                let y = match x {
                    X::A(a) if a > 5 => { <|>1i32 },
                    X::B => { 1i32 },
                    X::C => { 2i32 }
                }
            }
            "#;
    let (cursor, src) = cursor_of(before);
    let arms = vec![
        arm(&src, "X::A(a) if a > 5 => { 1i32 }", &["X::A(a)"], "{ 1i32 }", true),
        arm(&src, "X::B => { 1i32 }", &["X::B"], "{ 1i32 }", false),
        arm(&src, "X::C => { 2i32 }", &["X::C"], "{ 2i32 }", false),
    ];
    assert!(merge_match_arms(&arms, cursor).is_none());
}

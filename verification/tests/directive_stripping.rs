use dnt_core::directives::{
    find_types_specifier, get_deno_comment_directive_text_changes, is_deno_types_pragma,
    is_triple_slash_reference, reference_should_be_deleted, specifier_is_relative_or_url, Comment,
    TextChange,
};

fn chars(s: &str) -> Vec<char> {
    s.chars().collect()
}

fn comment(text: &str, lo: usize, hi: usize) -> Comment {
    Comment { text: chars(text), lo, hi }
}

/// Applies deletions (assumed non-overlapping and ordered by position).
fn apply(src: &[char], changes: &[TextChange]) -> String {
    let mut out = String::new();
    let mut pos = 0usize;
    for ch in changes {
        assert!(ch.lo >= pos && ch.lo <= ch.hi && ch.hi <= src.len());
        out.extend(&src[pos..ch.lo]);
        out.extend(ch.new_text.iter());
        pos = ch.hi;
    }
    out.extend(&src[pos..]);
    out
}

#[test]
fn no_comments_mean_no_edits() {
    let changes = get_deno_comment_directive_text_changes(&chars("code();"), &Vec::new(), &Vec::new());
    assert!(changes.is_empty());
    let empty: Vec<char> = Vec::new();
    let changes = get_deno_comment_directive_text_changes(&empty, &Vec::new(), &Vec::new());
    assert!(changes.is_empty());
}

#[test]
fn pragma_comment_line_is_fully_deleted() {
    // `// @deno-types="./mod.ext"` then a newline, then the import.
    let src = chars("// @deno-types=\"./mod.ext\"\nimport x from \"./mod.ext\";");
    let c = comment(" @deno-types=\"./mod.ext\"", 0, 26);
    let leading = vec![comment(" @deno-types=\"./mod.ext\"", 0, 26)];
    let all = vec![c];
    let changes = get_deno_comment_directive_text_changes(&src, &leading, &all);
    assert_eq!(changes.len(), 1);
    assert_eq!(changes[0].lo, 0);
    // extended past the newline, up to the `i` of `import`
    assert_eq!(changes[0].hi, 27);
    assert!(changes[0].new_text.is_empty());
    assert_eq!(apply(&src, &changes), "import x from \"./mod.ext\";");
}

#[test]
fn bare_reference_specifier_is_left_unchanged() {
    // `/// <reference types="dom" />` then a newline, then code.
    let src = chars("/// <reference types=\"dom\" />\ncode();");
    let leading = vec![comment("/ <reference types=\"dom\" />", 0, 29)];
    let all = vec![comment("/ <reference types=\"dom\" />", 0, 29)];
    let changes = get_deno_comment_directive_text_changes(&src, &leading, &all);
    assert_eq!(changes.len(), 0);
    assert_eq!(apply(&src, &changes), "/// <reference types=\"dom\" />\ncode();");
}

#[test]
fn relative_reference_specifier_is_deleted_with_line_break() {
    let src = chars("/// <reference types=\"./x.d.ts\" />\ncode();");
    let leading = vec![comment("/ <reference types=\"./x.d.ts\" />", 0, 34)];
    let all = vec![comment("/ <reference types=\"./x.d.ts\" />", 0, 34)];
    let changes = get_deno_comment_directive_text_changes(&src, &leading, &all);
    assert_eq!(changes.len(), 1);
    assert_eq!((changes[0].lo, changes[0].hi), (0, 35));
    assert_eq!(apply(&src, &changes), "code();");
}

#[test]
fn parent_relative_and_url_specifiers_are_deleted() {
    for spec in ["../up.d.ts", "https://example.com/t.d.ts", "http://example.com/t.d.ts"] {
        let text = format!("/ <reference types=\"{}\" />", spec);
        assert!(
            reference_should_be_deleted(&chars(&text)),
            "specifier {} should be deleted",
            spec
        );
    }
    for spec in ["some-lib", "node", ".hidden/x"] {
        let text = format!("/ <reference types=\"{}\" />", spec);
        assert!(
            !reference_should_be_deleted(&chars(&text)),
            "specifier {} should survive",
            spec
        );
    }
}

#[test]
fn matching_is_case_insensitive() {
    assert!(reference_should_be_deleted(&chars("/ <REFERENCE TYPES=\"HTTPS://A\" />")));
    assert!(is_triple_slash_reference(&chars("/ <Reference path=\"x\" />")));
    assert!(is_deno_types_pragma(&chars(" @DENO-TYPES = 'x'")));
    assert!(is_deno_types_pragma(&chars("@Deno-Types=bare-token")));
}

#[test]
fn malformed_directives_are_left_untouched() {
    // no closing token
    assert!(!is_triple_slash_reference(&chars("/ <reference types=\"./x\"")));
    // no whitespace after the opener keyword
    assert!(!is_triple_slash_reference(&chars("/ <reference/>")));
    // reference without a types attribute: recognised, but never deleted
    assert!(is_triple_slash_reference(&chars("/ <reference path=\"./x\" />")));
    assert!(!reference_should_be_deleted(&chars("/ <reference path=\"./x\" />")));
    // unquoted types value: the attribute fails, the comment survives
    assert!(!reference_should_be_deleted(&chars("/ <reference types=./x />")));
    // pragma without `=`
    assert!(!is_deno_types_pragma(&chars("@deno-types \"./x\"")));
    // pragma with nothing after `=`
    assert!(!is_deno_types_pragma(&chars("@deno-types=")));
    assert!(!is_deno_types_pragma(&chars("@deno-types=   ")));
    // a longer keyword is not the pragma
    assert!(!is_deno_types_pragma(&chars("@deno-typesx=1")));
}

#[test]
fn mismatched_quote_kinds_still_capture() {
    // the closing quote may be of either kind
    assert!(reference_should_be_deleted(&chars("/ <reference types=\"./a' />")));
}

#[test]
fn pragma_pass_scans_every_comment() {
    // two pragma comments deep in the file, one ordinary comment between them
    let src = chars("a();\n// @deno-types=\"./x\"\nb();\n// keep me\n// @deno-types='./y'\nc();");
    let all = vec![
        comment(" @deno-types=\"./x\"", 5, 25),
        comment(" keep me", 31, 41),
        comment(" @deno-types='./y'", 42, 62),
    ];
    let leading = Vec::new();
    let changes = get_deno_comment_directive_text_changes(&src, &leading, &all);
    assert_eq!(changes.len(), 2);
    assert_eq!((changes[0].lo, changes[0].hi), (5, 26));
    assert_eq!((changes[1].lo, changes[1].hi), (42, 63));
    let out = apply(&src, &changes);
    assert_eq!(out, "a();\nb();\n// keep me\nc();");
    assert!(!out.to_lowercase().contains("@deno-types"));
}

#[test]
fn rerunning_on_stripped_output_changes_nothing() {
    let src = chars("// @deno-types=\"./x\"\nimport y;\n// plain\n");
    let all = vec![comment(" @deno-types=\"./x\"", 0, 20), comment(" plain", 31, 39)];
    let changes = get_deno_comment_directive_text_changes(&src, &Vec::new(), &all);
    assert_eq!(changes.len(), 1);
    let out: Vec<char> = apply(&src, &changes).chars().collect();
    assert_eq!(out.iter().collect::<String>(), "import y;\n// plain\n");
    // the surviving comment, at its new position
    let all2 = vec![comment(" plain", 10, 18)];
    let changes2 = get_deno_comment_directive_text_changes(&out, &Vec::new(), &all2);
    assert_eq!(changes2.len(), 0);
}

#[test]
fn no_whitespace_only_line_is_left_behind() {
    // indented comment on its own line
    let src = chars("a();\n  // @deno-types=\"./x\"\n  b();");
    let all = vec![comment(" @deno-types=\"./x\"", 7, 27)];
    let changes = get_deno_comment_directive_text_changes(&src, &Vec::new(), &all);
    assert_eq!(changes.len(), 1);
    let out = apply(&src, &changes);
    // the deletion swallowed the newline and the next line's indentation
    assert_eq!(out, "a();\n  b();");
    assert!(out.lines().all(|line| line.trim().is_empty() == line.is_empty()));
}

#[test]
fn deletion_at_end_of_text_extends_to_the_end() {
    let src = chars("x();\n// @deno-types=\"./x\"\n   ");
    let all = vec![comment(" @deno-types=\"./x\"", 5, 25)];
    let changes = get_deno_comment_directive_text_changes(&src, &Vec::new(), &all);
    assert_eq!(changes.len(), 1);
    assert_eq!((changes[0].lo, changes[0].hi), (5, 29));
    assert_eq!(apply(&src, &changes), "x();\n");
}

#[test]
fn reference_pass_comes_before_pragma_pass() {
    let src = chars("/// <reference types=\"./r\" />\n// @deno-types=\"./p\"\nimport z;");
    let leading = vec![comment("/ <reference types=\"./r\" />", 0, 29)];
    let all = vec![
        comment("/ <reference types=\"./r\" />", 0, 29),
        comment(" @deno-types=\"./p\"", 30, 50),
    ];
    let changes = get_deno_comment_directive_text_changes(&src, &leading, &all);
    // the reference comment matches only the reference grammar, the pragma
    // only the pragma grammar: exactly two edits, reference first
    assert_eq!(changes.len(), 2);
    assert_eq!((changes[0].lo, changes[0].hi), (0, 30));
    assert_eq!((changes[1].lo, changes[1].hi), (30, 51));
    assert_eq!(apply(&src, &changes), "import z;");
}

#[test]
fn the_leftmost_types_attribute_is_captured() {
    let text = chars("/ <reference types=\"dom\" types=\"./b\" />");
    let (lo, hi) = find_types_specifier(&text).expect("attribute expected");
    assert_eq!(text[lo..hi].iter().collect::<String>(), "dom");
    assert!(!specifier_is_relative_or_url(&text, lo, hi));
    assert!(find_types_specifier(&chars("/ <reference path=\"x\" />")).is_none());
}

#[test]
fn specifier_prefixes_decide_deletion() {
    let text = chars("./a ../b https://c http://d lib");
    assert!(specifier_is_relative_or_url(&text, 0, 3));
    assert!(specifier_is_relative_or_url(&text, 4, 8));
    assert!(specifier_is_relative_or_url(&text, 9, 18));
    assert!(specifier_is_relative_or_url(&text, 19, 27));
    assert!(!specifier_is_relative_or_url(&text, 28, 31));
    // the dot alone is not a relative prefix
    assert!(!specifier_is_relative_or_url(&text, 0, 1));
}

#[test]
fn unicode_whitespace_is_extended_past() {
    // an em-quad and an ideographic space after the comment
    let src = chars("// @deno-types=x\u{2001}\u{3000}done");
    let all = vec![comment(" @deno-types=x", 0, 16)];
    let changes = get_deno_comment_directive_text_changes(&src, &Vec::new(), &all);
    assert_eq!(changes.len(), 1);
    assert_eq!((changes[0].lo, changes[0].hi), (0, 18));
    assert_eq!(apply(&src, &changes), "done");
}

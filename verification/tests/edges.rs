use hhkodo::glyph::{classify_char, run_holds, skip_spaces, take_name, take_while, Run};
use hhkodo::parser::{
    closing_literal, fold_ascii, parse_until, same_name, take_header, take_param, take_params,
    Span,
};
use hhkodo::{classify, parse_frags, parse_glyphs, Frag, Glyph, Param};

fn raw(text: &str) -> Frag {
    Frag::Raw(text.to_string())
}

fn tag(name: &str, val: Option<&str>, params: Vec<Param>, subfrags: Vec<Frag>) -> Frag {
    Frag::Tag { name: name.to_string(), val: val.map(|v| v.to_string()), params, subfrags }
}

fn free(token: &str) -> Param {
    Param::Free(token.to_string())
}

fn pair(key: &str, val: &str) -> Param {
    Param::Pair { key: key.to_string(), val: val.to_string() }
}

#[test]
fn lone_closing_tag_is_kept_as_text() {
    assert_eq!(parse_frags("[/b]"), vec![raw("[/b]")]);
}

#[test]
fn closing_tag_matches_without_regard_to_ascii_case() {
    assert_eq!(parse_frags("[B]x[/b]"), vec![tag("B", None, vec![], vec![raw("x")])]);
    assert_eq!(parse_frags("[quote]x[/QuOtE]y"), vec![
        tag("quote", None, vec![], vec![raw("x")]),
        raw("y"),
    ]);
}

#[test]
fn closing_tag_does_not_fold_letters_outside_ascii() {
    assert_eq!(parse_frags("[\u{e9}]x[/\u{c9}]"), vec![tag(
        "\u{e9}",
        None,
        vec![],
        vec![raw("x"), raw("[/\u{c9}]")],
    )]);
}

#[test]
fn closing_tag_of_another_length_does_not_match() {
    assert_eq!(parse_frags("[b]x[/bb]"), vec![tag("b", None, vec![], vec![raw("x"), raw("[/bb]")])]);
}

#[test]
fn short_value_and_body() {
    assert_eq!(parse_frags("[url=https://x]link[/url]"), vec![tag(
        "url",
        Some("https://x"),
        vec![],
        vec![raw("link")],
    )]);
}

#[test]
fn empty_name_is_a_tag() {
    assert_eq!(parse_frags("[]"), vec![tag("", None, vec![], vec![])]);
    assert_eq!(parse_frags("[=x]"), vec![tag("", Some("x"), vec![], vec![])]);
}

#[test]
fn value_keeps_further_equal_signs() {
    assert_eq!(parse_frags("[a=b=c]"), vec![tag("a", Some("b=c"), vec![], vec![])]);
}

#[test]
fn param_splits_at_first_equal_sign() {
    assert_eq!(parse_frags("[a k=v=w =x y=]"), vec![tag(
        "a",
        None,
        vec![pair("k", "v=w"), pair("", "x"), pair("y", "")],
        vec![],
    )]);
}

#[test]
fn params_keep_their_order_and_their_duplicates() {
    assert_eq!(parse_frags("[a x k=1 x k=2 k=1]"), vec![tag(
        "a",
        None,
        vec![free("x"), pair("k", "1"), free("x"), pair("k", "2"), pair("k", "1")],
        vec![],
    )]);
}

#[test]
fn value_then_params() {
    assert_eq!(parse_frags("[a = b]"), vec![tag("a", Some(""), vec![free("b")], vec![])]);
    assert_eq!(parse_frags("[size=3 bold  k=v ]t[/size]"), vec![tag(
        "size",
        Some("3"),
        vec![free("bold"), pair("k", "v")],
        vec![raw("t")],
    )]);
}

#[test]
fn name_stops_at_first_character_that_is_not_alphanumeric() {
    assert_eq!(parse_frags("[a-b]x[/a]"), vec![tag("a", None, vec![free("-b")], vec![raw("x")])]);
}

#[test]
fn white_space_of_any_kind_separates_params() {
    assert_eq!(parse_frags("[a\tb\u{a0}c\n]"), vec![tag(
        "a",
        None,
        vec![free("b"), free("c")],
        vec![],
    )]);
}

#[test]
fn bracket_inside_a_header_is_part_of_a_token() {
    assert_eq!(parse_frags("[[["), vec![tag("", None, vec![free("[[")], vec![])]);
    assert_eq!(parse_frags("[a=[b] c[d]x"), vec![tag("a", Some("[b"), vec![], vec![
        raw(" c"),
        tag("d", None, vec![], vec![raw("x")]),
    ])]);
}

#[test]
fn missing_bracket_at_the_end_is_tolerated() {
    assert_eq!(parse_frags("[b"), vec![tag("b", None, vec![], vec![])]);
    assert_eq!(parse_frags("[b x"), vec![tag("b", None, vec![free("x")], vec![])]);
    assert_eq!(parse_frags("[b]x[/b"), vec![tag("b", None, vec![], vec![raw("x")])]);
    assert_eq!(parse_frags("[/b"), vec![raw("[/b]")]);
    assert_eq!(parse_frags("["), vec![tag("", None, vec![], vec![])]);
    assert_eq!(parse_frags("[/"), vec![raw("[/]")]);
}

#[test]
fn closing_tag_consumes_only_its_own_bracket() {
    assert_eq!(parse_frags("[/b x"), vec![raw("[/b]"), raw(" x")]);
    assert_eq!(parse_frags("[b]x[/b y"), vec![tag("b", None, vec![], vec![raw("x")]), raw(" y")]);
}

#[test]
fn text_after_a_closed_tag_belongs_to_the_outer_scope() {
    assert_eq!(parse_frags("[a][b]x[/b]y[/a]z"), vec![
        tag("a", None, vec![], vec![tag("b", None, vec![], vec![raw("x")]), raw("y")]),
        raw("z"),
    ]);
}

#[test]
fn inner_tag_swallows_the_closer_of_the_outer_one() {
    assert_eq!(parse_frags("[a][b]x[/a]y"), vec![tag(
        "a",
        None,
        vec![],
        vec![tag("b", None, vec![], vec![raw("x"), raw("[/a]"), raw("y")])],
    )]);
}

#[test]
fn adjacent_brackets_give_no_empty_text() {
    assert_eq!(parse_frags("[a][/a][b][/b]"), vec![
        tag("a", None, vec![], vec![]),
        tag("b", None, vec![], vec![]),
    ]);
}

#[test]
fn classify_records_what_unicode_says() {
    assert_eq!(classify("a 1[\u{3000}\u{e9}"), vec![
        Glyph { ch: 'a', alnum: true, space: false },
        Glyph { ch: ' ', alnum: false, space: true },
        Glyph { ch: '1', alnum: true, space: false },
        Glyph { ch: '[', alnum: false, space: false },
        Glyph { ch: '\u{3000}', alnum: false, space: true },
        Glyph { ch: '\u{e9}', alnum: true, space: false },
    ]);
    assert_eq!(classify_char(']'), Glyph { ch: ']', alnum: false, space: false });
    assert_eq!(classify(""), Vec::<Glyph>::new());
}

#[test]
fn parser_reads_the_recorded_classes() {
    let mut gs = classify("[b_i]x");
    gs[2].alnum = true;
    assert_eq!(parse_glyphs(&gs), vec![tag("b_i", None, vec![], vec![raw("x")])]);
    let mut gs = classify("[b_i]x");
    gs[2].space = true;
    assert_eq!(parse_glyphs(&gs), vec![tag("b", None, vec![free("i")], vec![raw("x")])]);
}

#[test]
fn parse_glyphs_agrees_with_parse_frags() {
    for input in ["", "plain", "[b]x[/b]", "[a k=v]t[/A] [/z", "[[[", "]]]", "[/][/]"] {
        assert_eq!(parse_glyphs(&classify(input)), parse_frags(input));
    }
}

#[test]
fn text_without_brackets_is_one_fragment() {
    for input in ["a", "a b c", "]", "/=", "  ", "x]y/z"] {
        assert_eq!(parse_frags(input), vec![raw(input)]);
    }
}

#[test]
fn whole_text_is_read_at_the_top() {
    for input in ["", "abc", "[b]x[/b]", "[b]x[/b]y", "[/b][/c]", "[a [b", "x[/"] {
        let gs = classify(input);
        let (frags, end) = parse_until(&gs, 0, None);
        assert_eq!(end, gs.len());
        assert_eq!(frags, parse_frags(input));
    }
}

#[test]
fn scope_ends_after_its_closer() {
    let gs = classify("[b]x[/B]rest");
    let (frags, end) = parse_until(&gs, 3, Some(Span { start: 1, end: 2 }));
    assert_eq!(frags, vec![raw("x")]);
    assert_eq!(end, 8);
    let (frags, end) = parse_until(&gs, 3, None);
    assert_eq!(frags, vec![raw("x"), raw("[/B]"), raw("rest")]);
    assert_eq!(end, 12);
    let (frags, end) = parse_until(&gs, 12, None);
    assert_eq!(frags, Vec::<Frag>::new());
    assert_eq!(end, 12);
    let (frags, end) = parse_until(&gs, 13, None);
    assert_eq!(frags, Vec::<Frag>::new());
    assert_eq!(end, 13);
}

#[test]
fn runs_are_maximal() {
    let gs = classify("ab1 \t-x=y]z[");
    assert_eq!(take_name(&gs, 0), ("ab1".to_string(), 3));
    assert_eq!(take_name(&gs, 3), (String::new(), 3));
    assert_eq!(skip_spaces(&gs, 3), 5);
    assert_eq!(skip_spaces(&gs, 5), 5);
    assert_eq!(take_while(&gs, 5, Run::Token), ("-x=y".to_string(), 9));
    assert_eq!(take_while(&gs, 5, Run::Key), ("-x".to_string(), 7));
    assert_eq!(take_while(&gs, 0, Run::Text), ("ab1 \t-x=y]z".to_string(), 11));
    assert_eq!(take_while(&gs, 11, Run::Text), (String::new(), 11));
    assert_eq!(take_while(&gs, 12, Run::Text), (String::new(), 12));
    assert_eq!(take_while(&gs, 40, Run::Space), (String::new(), 40));
}

#[test]
fn run_kinds() {
    let open = classify_char('[');
    let close = classify_char(']');
    let eq = classify_char('=');
    let space = classify_char(' ');
    let letter = classify_char('q');
    assert!(!run_holds(Run::Text, open) && run_holds(Run::Text, close));
    assert!(run_holds(Run::Name, letter) && !run_holds(Run::Name, eq));
    assert!(run_holds(Run::Space, space) && !run_holds(Run::Space, letter));
    assert!(run_holds(Run::Token, eq) && !run_holds(Run::Token, close));
    assert!(!run_holds(Run::Token, space) && run_holds(Run::Token, open));
    assert!(run_holds(Run::Key, letter) && !run_holds(Run::Key, eq));
    assert!(!run_holds(Run::Key, close) && !run_holds(Run::Key, space));
}

#[test]
fn params_one_by_one() {
    let gs = classify("k=v=w free =x ]");
    assert_eq!(take_param(&gs, 0), (pair("k", "v=w"), 5));
    assert_eq!(take_param(&gs, 6), (free("free"), 10));
    assert_eq!(take_param(&gs, 11), (pair("", "x"), 13));
    assert_eq!(take_param(&gs, 5), (free(""), 5));
    assert_eq!(take_param(&gs, 15), (free(""), 15));
    assert_eq!(take_params(&gs, 0), (vec![pair("k", "v=w"), free("free"), pair("", "x")], 14));
    assert_eq!(take_params(&gs, 14), (vec![], 14));
    assert_eq!(take_params(&gs, 5), (vec![free(""), free("free"), pair("", "x")], 14));
    assert_eq!(take_param(&gs, 99), (free(""), 99));
    assert_eq!(take_params(&gs, 99), (vec![], 99));
}

#[test]
fn header_parts() {
    let gs = classify("[url = x  y=z]body");
    let open = take_header(&gs, 1);
    assert_eq!(open.name, "url");
    assert_eq!(open.name_span, Span { start: 1, end: 4 });
    assert_eq!(open.val, Some(String::new()));
    assert_eq!(open.params, vec![free("x"), pair("y", "z")]);
    assert_eq!(open.next, 14);
    let gs = classify("[b");
    let open = take_header(&gs, 1);
    assert_eq!(open.name, "b");
    assert_eq!(open.val, None);
    assert_eq!(open.params, Vec::<Param>::new());
    assert_eq!(open.next, 2);
}

#[test]
fn folding_moves_only_ascii_capitals() {
    assert_eq!(fold_ascii('A'), 97);
    assert_eq!(fold_ascii('Z'), 122);
    assert_eq!(fold_ascii('a'), 97);
    assert_eq!(fold_ascii('@'), 64);
    assert_eq!(fold_ascii('['), 91);
    assert_eq!(fold_ascii('\u{c9}'), 0xc9);
}

#[test]
fn names_compare_by_folded_characters() {
    let gs = classify("abc ABC aBd ab");
    let at = |start: usize, end: usize| Span { start, end };
    assert!(same_name(&gs, at(0, 3), at(4, 7)));
    assert!(same_name(&gs, at(0, 3), at(0, 3)));
    assert!(!same_name(&gs, at(0, 3), at(8, 11)));
    assert!(!same_name(&gs, at(0, 3), at(12, 14)));
    assert!(same_name(&gs, at(0, 2), at(12, 14)));
    assert!(same_name(&gs, at(3, 3), at(7, 7)));
}

#[test]
fn closing_literal_wraps_the_name() {
    assert_eq!(closing_literal(&"b".to_string()), "[/b]");
    assert_eq!(closing_literal(&String::new()), "[/]");
}

#[test]
fn deep_nesting_keeps_its_depth() {
    let input = "[a][a][a][a]x";
    let mut expected = raw("x");
    for _ in 0..4 {
        expected = tag("a", None, vec![], vec![expected]);
    }
    assert_eq!(parse_frags(input), vec![expected]);
}

fn depth(frags: &[Frag]) -> usize {
    let mut deepest = 0;
    for frag in frags {
        if let Frag::Tag { subfrags, .. } = frag {
            deepest = deepest.max(1 + depth(subfrags));
        }
    }
    deepest
}

fn sound(frags: &[Frag]) -> bool {
    frags.iter().all(|frag| match frag {
        Frag::Raw(text) => !text.is_empty(),
        Frag::Tag { name, subfrags, .. } => {
            name.chars().all(|c| c.is_alphanumeric()) && sound(subfrags)
        }
    })
}

#[test]
fn nesting_is_never_deeper_than_there_are_brackets() {
    assert_eq!(depth(&parse_frags("[][][")), 3);
    assert_eq!(depth(&parse_frags("[[[")), 1);
    assert_eq!(depth(&parse_frags("[a][b][/b][c][/c][/a]")), 2);
    assert_eq!(depth(&parse_frags("no tags [/x]")), 0);
    for input in ["[", "[[", "[a[b[c", "[a]x[/a][b]y[/b]", "", "[/a][a][/a]"] {
        assert!(depth(&parse_frags(input)) <= input.chars().filter(|c| *c == '[').count());
    }
}

#[test]
fn parsed_fragments_are_sound() {
    for input in [
        "",
        "[",
        "[]",
        "[/]",
        "[a-b c=d]x[/a]",
        "[\u{e9}t\u{e9}=1]\u{3000}[/\u{e9}t\u{e9}]",
        "[[a]]",
        "x[/y]z[w",
        "[ a ]",
    ] {
        assert!(sound(&parse_frags(input)));
    }
}

#[test]
fn clone_copies_the_whole_tree() {
    let frags = parse_frags("a[b=1 c d=e]f[g]h[/g][/x][/b]i");
    let copy: Vec<Frag> = frags.iter().map(|frag| frag.clone()).collect();
    assert_eq!(copy, frags);
    assert_eq!(frags.len(), 3);
    assert_eq!(pair("k", "v").clone(), pair("k", "v"));
    assert_eq!(free("k").clone(), free("k"));
    assert_eq!(hhkodo::frag::clone_frags(&frags), frags);
    assert_eq!(hhkodo::frag::clone_params(&vec![free("a"), pair("b", "c")]), vec![
        free("a"),
        pair("b", "c"),
    ]);
}

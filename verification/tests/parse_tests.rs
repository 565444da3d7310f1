use shibuichi::ast::{
    AdvancedConditional, Conditional, DateFormat, Element, Escape, EscapeLiteral, NamedColor,
    NumericEscape, PathPrefix, Truncation,
};
use shibuichi::parse;

#[test]
fn simple_escapes() {
    let expected = vec![
        Element::Escape(Escape('%')),
        Element::Character(' '),
        Element::NumericEscape(NumericEscape(Some(-3), '~')),
        Element::Character(' '),
        Element::Escape(Escape('D')),
        Element::Character(' '),
        Element::NumericEscape(NumericEscape(None, 'v')),
    ];
    let elems = parse("%% %-3~ %D %v");
    assert_eq!(elems, expected);
}

#[test]
fn date_format() {
    let expected = vec![Element::DateFormat(DateFormat("%H:%M:%S.%.".to_string()))];
    let elems = parse("%D{%H:%M:%S.%.}");
    assert_eq!(elems, expected);
}

#[test]
fn named_color() {
    let expected = vec![
        Element::NamedColor(NamedColor {
            num: None,
            code: 'F',
            name: "red".to_string(),
        }),
        Element::Character(' '),
        Element::NamedColor(NamedColor {
            num: Some(0),
            code: 'K',
            name: "black".to_string(),
        }),
    ];
    let elems = parse("%F{red} %0K{black}");
    assert_eq!(elems, expected);
}

#[test]
fn path_prefix() {
    let expected = vec![
        Element::PathPrefix(PathPrefix {
            num: None,
            code: 'd',
            delim: '.',
            prefix_subs: vec![],
        }),
        Element::Character(' '),
        Element::PathPrefix(PathPrefix {
            num: Some(-2),
            code: '/',
            delim: ':',
            prefix_subs: vec![("home".to_string(), "/home/user".to_string())],
        }),
    ];
    let elems = parse("%d{.} %-2/{:home:/home/user}");
    assert_eq!(elems, expected);
}

#[test]
fn escape_literal() {
    let expected = vec![Element::EscapeLiteral(EscapeLiteral(
        "$terminfo[smacs]%G".to_string(),
    ))];
    let elems = parse("%{$terminfo[smacs]%G%}");
    assert_eq!(elems, expected);
}

#[test]
fn truncation() {
    let expected = vec![
        Element::Truncation(Truncation {
            num: Some(8),
            code: '<',
            replacement: "..".to_string(),
        }),
        Element::Truncation(Truncation {
            num: None,
            code: '<',
            replacement: "".to_string(),
        }),
        Element::Character(' '),
        Element::Truncation(Truncation {
            num: None,
            code: '>',
            replacement: "\\>".to_string(),
        }),
    ];
    let elems = parse("%8<..<%<< %>\\>>");
    assert_eq!(elems, expected);
}

#[test]
fn conditional() {
    let expected = vec![Element::Conditional(Conditional {
        num: None,
        code: 'C',
        delim: '.',
        true_branch: vec![Element::Character('a')],
        false_branch: vec![Element::Conditional(Conditional {
            num: Some(1),
            code: 'g',
            delim: '#',
            true_branch: vec![Element::Character('b')],
            false_branch: vec![Element::Character('c')],
        })],
    })];
    let elems = parse("%(C.a.%1(g#b#c))");
    assert_eq!(elems, expected);
}

#[test]
fn advanced_conditional() {
    let expected = vec![Element::AdvancedConditional(AdvancedConditional {
        code: 'o',
        delim: '.',
        conditions: vec![
            vec![Element::Character('a')],
            vec![Element::Character('b')],
            vec![Element::Character('c')],
        ],
    })];
    let elems = parse("%(o.a.b.c)");
    assert_eq!(elems, expected);
}

// The multi-armed rule is tried before the two-armed one, so a predicate in
// `opqx` with repeated single-character branches reads as a six-branch
// multi-conditional, not as a two-armed conditional.
#[test]
fn advanced_over_conditional() {
    let expected = vec![Element::AdvancedConditional(AdvancedConditional {
        code: 'o',
        delim: '.',
        conditions: vec![
            vec![Element::Character('g')],
            vec![Element::Character('h')],
            vec![Element::Character('l')],
            vec![Element::Character('b')],
            vec![Element::Character('a')],
            vec![],
        ],
    })];
    let elems = parse("%(o.g.h.l.b.a.)");
    assert_eq!(elems, expected);
}

// A numeric argument too large for an i64 fails the numeric rules, and the
// characters fall through to the literal fallback.
#[test]
fn numeric_overflow_falls_back() {
    let elems = parse("%99999999999999999999~");
    assert_eq!(elems[0], Element::Character('%'));
    assert_eq!(elems.len(), "99999999999999999999~".len() + 1);
}

// Parsing is total: arbitrary malformed input still yields elements, one per
// character at worst.
#[test]
fn parse_is_total_on_junk() {
    for input in ["%(o", "%D{", "%{never closed", "%-", "%", "\\", "%(x.a"] {
        let elems = parse(input);
        assert!(!elems.is_empty() || input.is_empty());
        assert!(elems.len() <= input.chars().count());
    }
    assert_eq!(parse(""), vec![]);
}

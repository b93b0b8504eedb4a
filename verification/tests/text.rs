use tailcall::template::{DynamicValue, Mustache, Segment};
use tailcall::text::{
    append_chars, chars_of, contains, decimal_digits, find, head_of, last_index_of, matches_at,
    replace, split, tail_of, trim,
};

fn chars(s: &str) -> Vec<char> {
    s.chars().collect()
}

fn text(v: Vec<char>) -> String {
    v.into_iter().collect()
}

#[test]
fn chars_of_gives_the_characters() {
    assert_eq!(chars_of("añb"), vec!['a', 'ñ', 'b']);
    assert_eq!(chars_of(""), Vec::<char>::new());
}

#[test]
fn replace_takes_occurrences_from_the_left() {
    assert_eq!(text(replace(&chars("aaa"), &chars("aa"), &chars("b"))), "ba");
    assert_eq!(text(replace(&chars("abcabc"), &chars("bc"), &chars("-"))), "a-a-");
    assert_eq!(text(replace(&chars("abc"), &chars("x"), &chars("y"))), "abc");
    assert_eq!(text(replace(&chars("abc"), &chars(""), &chars("y"))), "abc");
    assert_eq!(text(replace(&chars(""), &chars("a"), &chars("y"))), "");
    assert_eq!(text(replace(&chars("ab"), &chars("ab"), &chars(""))), "");
}

#[test]
fn search_in_text() {
    assert!(contains(&chars("hello"), &chars("ll")));
    assert!(contains(&chars("hello"), &chars("")));
    assert!(contains(&chars(""), &chars("")));
    assert!(!contains(&chars("hello"), &chars("lll")));
    assert!(matches_at(&chars("hello"), &chars("lo"), 3));
    assert!(!matches_at(&chars("hello"), &chars("lo"), 4));
    assert!(!matches_at(&chars("hello"), &chars("lo"), 9));
    assert_eq!(find(&chars("a{{b{{c"), &chars("{{"), 0), Some(1));
    assert_eq!(find(&chars("a{{b{{c"), &chars("{{"), 2), Some(4));
    assert_eq!(find(&chars("a{{b{{c"), &chars("{{"), 5), None);
    assert_eq!(find(&chars("ab"), &chars("abc"), 0), None);
    assert_eq!(last_index_of(&chars("a.b.c"), '.'), Some(3));
    assert_eq!(last_index_of(&chars("abc"), '.'), None);
}

#[test]
fn pieces_of_text() {
    assert_eq!(text(head_of(&chars("hello"), 2)), "he");
    assert_eq!(text(tail_of(&chars("hello"), 2)), "llo");
    assert_eq!(text(tail_of(&chars("hello"), 5)), "");
    let mut v = chars("ab");
    append_chars(&mut v, &chars("cd"));
    assert_eq!(text(v), "abcd");
    assert_eq!(split(&chars("a.b..c"), '.'), vec!["a", "b", "", "c"]);
    assert_eq!(split(&chars(""), '.'), vec![""]);
    assert_eq!(split(&chars("."), '.'), vec!["", ""]);
    assert_eq!(text(trim(&chars("  a b \t\n"))), "a b");
    assert_eq!(text(trim(&chars("   "))), "");
    assert_eq!(text(trim(&chars("x"))), "x");
}

#[test]
fn decimal_numerals() {
    assert_eq!(text(decimal_digits(0)), "0");
    assert_eq!(text(decimal_digits(9)), "9");
    assert_eq!(text(decimal_digits(10)), "10");
    assert_eq!(text(decimal_digits(1234567890)), "1234567890");
    assert_eq!(text(decimal_digits(usize::MAX)), usize::MAX.to_string());
}

#[test]
fn mustache_parse_and_print() {
    let m = Mustache::parse("/users/{{.args.id}}/posts?x={{ value.x }}!");
    assert_eq!(
        m.segments,
        vec![
            Segment::Literal("/users/".into()),
            Segment::Expression(vec!["args".into(), "id".into()]),
            Segment::Literal("/posts?x=".into()),
            Segment::Expression(vec!["value".into(), "x".into()]),
            Segment::Literal("!".into()),
        ]
    );
    assert_eq!(m.to_string(), "/users/{{args.id}}/posts?x={{value.x}}!");
    assert!(m.references("args"));
    assert!(m.references("value"));
    assert!(!m.references("env"));
}

#[test]
fn mustache_parse_edge_cases() {
    assert_eq!(Mustache::parse("").segments, vec![]);
    assert_eq!(Mustache::parse("plain").segments, vec![Segment::Literal("plain".into())]);
    assert_eq!(Mustache::parse("a{{b").segments, vec![Segment::Literal("a{{b".into())]);
    assert_eq!(
        Mustache::parse("{{a}}").segments,
        vec![Segment::Expression(vec!["a".into()])]
    );
    assert_eq!(
        Mustache::parse("{{a}}{{b.c}}").segments,
        vec![
            Segment::Expression(vec!["a".into()]),
            Segment::Expression(vec!["b".into(), "c".into()])
        ]
    );
    assert_eq!(
        Mustache::parse("x}}{{y}}").segments,
        vec![Segment::Literal("x}}".into()), Segment::Expression(vec!["y".into()])]
    );
}

#[test]
fn dynamic_value_clone_is_equal() {
    let v = DynamicValue::Array(vec![
        DynamicValue::Mustache(Mustache::parse("{{.value.id}}")),
        DynamicValue::Object(vec![("k".into(), DynamicValue::Mustache(Mustache::parse("lit")))]),
    ]);
    assert_eq!(v.clone(), v);
}

#[test]
fn prepend_puts_a_root_before_every_hole() {
    let template = Mustache::parse("a {{x.y}} b {{z}} c");
    let inner = template.prepend("value");
    assert_eq!(inner.to_string(), "a {{value.x.y}} b {{value.z}} c");
    assert_eq!(Mustache::parse("no holes").prepend("value").to_string(), "no holes");
    assert_eq!(Mustache::parse("").prepend("value").to_string(), "");
    assert!(inner.references("value"));
    assert!(!template.references("value"));
}

use package_new::substitute::{str_replace_position, SubstitutionContext};
use package_new::token::str_to_insert_position;

#[test]
fn test_str_to_insert_position() {
    assert_eq!(
        vec![
            ("123", "{{123}}"),
            ("456", "{{ 456 }}"),
            ("789", "{{{789}}"),
        ],
        str_to_insert_position("{{123}}{{ 456 }}{{{789}}}")
    );
}

#[test]
fn tokens_of_the_brace_overlap_fixture() {
    assert_eq!(
        vec![
            ("123", "{{123}}"),
            ("456", "{{ 456 }}"),
            ("789", "{{{789}}"),
        ],
        str_to_insert_position("{{123}}{{ 456 }}{{{789}}")
    );
}

#[test]
fn unterminated_marker_is_ignored() {
    assert_eq!(Vec::<(&str, &str)>::new(), str_to_insert_position("abc {{def"));
    assert_eq!(vec![("x", "{{x}}")], str_to_insert_position("a {{x}} b {{y"));
}

#[test]
fn no_tokens_in_plain_text() {
    assert_eq!(Vec::<(&str, &str)>::new(), str_to_insert_position(""));
    assert_eq!(Vec::<(&str, &str)>::new(), str_to_insert_position("plain } { text }}"));
}

#[test]
fn key_is_trimmed_of_white_space_and_braces() {
    assert_eq!(vec![("a b", "{{\t a b \n}}")], str_to_insert_position("{{\t a b \n}}"));
    assert_eq!(vec![("", "{{}}")], str_to_insert_position("{{}}"));
}

#[test]
fn tokens_in_non_ascii_text() {
    assert_eq!(vec![("é", "{{ é }}")], str_to_insert_position("ü{{ é }}ß"));
}

fn context_x() -> SubstitutionContext {
    let mut ctx = SubstitutionContext::new();
    ctx.insert("x", "Y");
    ctx
}

#[test]
fn substitution_replaces_every_occurrence() {
    assert_eq!("aYbYc", str_replace_position("a{{x}}b{{x}}c", &context_x()));
}

#[test]
fn substitution_without_known_keys_is_identity() {
    let ctx = context_x();
    assert_eq!("hello {{world}}", str_replace_position("hello {{world}}", &ctx));
    assert_eq!("nothing here", str_replace_position("nothing here", &ctx));
    assert_eq!("", str_replace_position("", &ctx));
}

#[test]
fn unmapped_key_passes_through() {
    let ctx = context_x();
    assert_eq!("Y {{unknown}} Y", str_replace_position("{{x}} {{unknown}} {{ x }}", &ctx));
}

#[test]
fn later_insert_shadows_earlier() {
    let mut ctx = context_x();
    ctx.insert("x", "Z");
    assert_eq!("Z", str_replace_position("{{x}}", &ctx));
}

#[test]
fn whitespace_variants_are_distinct_spans() {
    let ctx = context_x();
    assert_eq!("Y-Y-Y", str_replace_position("{{x}}-{{ x }}-{{x }}", &ctx));
}

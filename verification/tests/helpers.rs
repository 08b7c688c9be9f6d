use snatch::commands::helpers::{
    has_options_pattern, is_affirmative, is_interrogative, short_id, truncate,
};

#[test]
fn test_interrogative_question_mark() {
    assert!(is_interrogative("Should we use Drop?"));
    assert!(is_interrogative("what do you think?"));
}

#[test]
fn test_interrogative_question_word() {
    assert!(is_interrogative("How should we handle this"));
    assert!(is_interrogative("What is the best approach"));
    assert!(is_interrogative("Should we proceed"));
}

#[test]
fn test_interrogative_code_false_positive() {
    // Question marks in code/URLs should not trigger
    assert!(!is_interrogative("```\nfoo?.bar\n```"));
    assert!(!is_interrogative("https://example.com?q=test"));
    assert!(!is_interrogative("// is this a comment?"));
}

#[test]
fn test_interrogative_not_question() {
    assert!(!is_interrogative("The implementation is ready."));
    assert!(!is_interrogative("Let's proceed with the refactor."));
    assert!(!is_interrogative("Build and deploy the service."));
}

#[test]
fn test_affirmative_direct() {
    assert!(is_affirmative("yes"));
    assert!(is_affirmative("Yeah, let's do that"));
    assert!(is_affirmative("Sounds good to me"));
    assert!(is_affirmative("Go for it"));
    assert!(is_affirmative("Absolutely"));
}

#[test]
fn test_affirmative_choice() {
    assert!(is_affirmative("Option A"));
    assert!(is_affirmative("let's go with approach 2"));
    assert!(is_affirmative("I prefer the first one"));
}

#[test]
fn test_affirmative_short_positive() {
    assert!(is_affirmative("I agree with that approach"));
    assert!(is_affirmative("great, let's do it"));
}

#[test]
fn test_affirmative_not_affirmative() {
    assert!(!is_affirmative("No, I don't think so"));
    assert!(!is_affirmative("What about the other approach?"));
    assert!(!is_affirmative("I need to think about this more. There are several factors to consider and I'm not sure which direction we should go. Let me review the options again and get back to you with my thoughts."));
}

#[test]
fn test_options_explicit_ab() {
    assert!(has_options_pattern("Option A: use traits\nOption B: use structs"));
}

#[test]
fn test_options_pros_cons() {
    assert!(has_options_pattern("Pros: fast\nCons: complex"));
    assert!(has_options_pattern("Advantages: simple\nDisadvantages: slow"));
}

#[test]
fn test_options_numbered_with_deliberation() {
    let text = "1. Use traits\n2. Use structs\nAlternatively, we could use enums.";
    assert!(has_options_pattern(text));
}

#[test]
fn test_options_numbered_three_plus_matches() {
    // 3+ numbered items match even without deliberation (may be options)
    let text = "1. Use traits\n2. Use structs\n3. Use enums";
    assert!(has_options_pattern(text));
}

#[test]
fn test_options_numbered_two_without_deliberation_rejected() {
    // Only 2 numbered items without deliberation should NOT match
    let text = "1. Read the file\n2. Edit the function";
    assert!(!has_options_pattern(text));
}

#[test]
fn test_options_bullet_instructions_rejected() {
    // Bullet lists that are instructions, not options
    let text = "- First, install the package\n- Then configure it\n- Finally run the tests";
    assert!(!has_options_pattern(text));
}

#[test]
fn test_options_bullet_with_alternatives() {
    let text = "- Use traits for polymorphism\n- Use enums for closed sets\n- Or we could use generics";
    assert!(has_options_pattern(text));
}

#[test]
fn test_truncate_short() {
    assert_eq!(truncate("hello", 10), "hello");
}

#[test]
fn test_truncate_exact() {
    assert_eq!(truncate("hello", 5), "hello");
}

#[test]
fn test_truncate_long() {
    assert_eq!(truncate("hello world", 5), "hello...");
}

#[test]
fn test_truncate_unicode() {
    // Em dash is 3 bytes
    let text = "hello — world";
    let result = truncate(text, 6);
    assert!(result.ends_with("..."));
    let _ = truncate(text, 7);
}

#[test]
fn test_truncate_multibyte() {
    let text = "café résumé naïve";
    let result = truncate(text, 4);
    assert_eq!(result, "café...");
}

#[test]
fn helpers_test_short_id() {
    assert_eq!(short_id("abcdef1234567890"), "abcdef12");
    assert_eq!(short_id("abc"), "abc");
    assert_eq!(short_id(""), "");
}

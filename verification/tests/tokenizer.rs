use shell_tokenizer::parse_input;
use shell_tokenizer::tokenize;
use shell_tokenizer::Tokenization;

#[test]
fn test_parse_input() {
    let input = "  echo  ".to_string();
    let tokens: Vec<String> = parse_input(&input);
    let expected_output = vec!["echo".to_string()];

    assert_eq!(tokens, expected_output);

    let input = "exit".to_string();
    let tokens: Vec<String> = parse_input(&input);
    let expected_output = vec!["exit".to_string()];

    assert_eq!(tokens, expected_output);

    let input = "echo echo echo".to_string();
    let tokens: Vec<String> = parse_input(&input);
    let expected_output = vec!["echo".to_string(), "echo".to_string(), "echo".to_string()];

    assert_eq!(tokens, expected_output);

    let input = "'hello    world :)'".to_string();
    let tokens: Vec<String> = parse_input(&input);
    let expected_output = vec!["hello    world :)".to_string()];

    assert_eq!(tokens, expected_output);

    let input = "echo 'hello    world :)'".to_string();
    let tokens: Vec<String> = parse_input(&input);
    let expected_output = vec!["echo".to_string(), "hello    world :)".to_string()];

    assert_eq!(tokens, expected_output);

    let input = "echo \"hello    world :)\"".to_string();
    let tokens: Vec<String> = parse_input(&input);
    let expected_output = vec!["echo".to_string(), "hello    world :)".to_string()];

    assert_eq!(tokens, expected_output);

    let input = "''".to_string();
    let tokens: Vec<String> = parse_input(&input);
    let expected_output = vec!["".to_string()];

    assert_eq!(tokens, expected_output);

    let input = "\"\"".to_string();
    let tokens: Vec<String> = parse_input(&input);
    let expected_output = vec!["".to_string()];

    assert_eq!(tokens, expected_output);

    let input = "echo 'hello''world'".to_string();
    let tokens: Vec<String> = parse_input(&input);
    let expected_output = vec!["echo".to_string(), "helloworld".to_string()];

    assert_eq!(tokens, expected_output);

    let input = "echo hello''world".to_string();
    let tokens: Vec<String> = parse_input(&input);
    let expected_output = vec!["echo".to_string(), "helloworld".to_string()];

    assert_eq!(tokens, expected_output);

    let input = "'  hello  world  ' a".to_string();
    let tokens: Vec<String> = parse_input(&input);
    let expected_output = vec!["  hello  world  ".to_string(), "a".to_string()];

    assert_eq!(tokens, expected_output);

    let input = "echo 'hello    \"   \"   world'".to_string();
    let tokens: Vec<String> = parse_input(&input);
    let expected_output = vec!["echo".to_string(), "hello    \"   \"   world".to_string()];

    assert_eq!(tokens, expected_output);

    let input = r"echo three\ \ \ spaces";
    let tokens: Vec<String> = parse_input(input);
    let expected_output = vec![
        "echo".to_string(),
        "three".to_string(),
        " ".to_string(),
        " ".to_string(),
        " ".to_string(),
        "spaces".to_string(),
    ];

    assert_eq!(tokens, expected_output);

    let input = r"echo before\     after";
    let tokens: Vec<String> = parse_input(input);
    let expected_output = vec![
        "echo".to_string(),
        "before".to_string(),
        " ".to_string(),
        "after".to_string(),
    ];

    assert_eq!(tokens, expected_output);

    let input = r"echo test\nexample";
    let tokens: Vec<String> = parse_input(input);
    let expected_output = vec!["echo".to_string(), "testnexample".to_string()];

    assert_eq!(tokens, expected_output);

    let input = r"echo hello\\world";
    let tokens: Vec<String> = parse_input(input);
    let expected_output = vec!["echo".to_string(), r"hello\world".to_string()];

    assert_eq!(tokens, expected_output);

    let input = r"echo \'hello\'";
    let tokens: Vec<String> = parse_input(input);
    let expected_output = vec!["echo".to_string(), r"'hello'".to_string()];

    assert_eq!(tokens, expected_output);
}

#[test]
fn empty_and_space_only_inputs_yield_no_tokens() {
    assert_eq!(tokenize(""), Tokenization::Complete(vec![]));
    assert_eq!(tokenize(" "), Tokenization::Complete(vec![]));
    assert_eq!(tokenize("     "), Tokenization::Complete(vec![]));
}

#[test]
fn space_runs_collapse_to_one_boundary() {
    let many = tokenize("alpha     beta");
    let one = tokenize("alpha beta");
    assert_eq!(many, one);
    assert_eq!(
        many,
        Tokenization::Complete(vec!["alpha".to_string(), "beta".to_string()])
    );
}

#[test]
fn single_quotes_keep_content_verbatim() {
    assert_eq!(
        tokenize("'a  \" b'"),
        Tokenization::Complete(vec!["a  \" b".to_string()])
    );
}

#[test]
fn adjacent_quoted_spans_merge_like_plain_text() {
    assert_eq!(tokenize("'ab''cd'"), tokenize("abcd"));
    assert_eq!(
        tokenize("'ab''cd'"),
        Tokenization::Complete(vec!["abcd".to_string()])
    );
}

#[test]
fn quoted_span_merges_with_adjacent_unquoted_text() {
    assert_eq!(tokenize("'a'b"), Tokenization::Complete(vec!["ab".to_string()]));
    assert_eq!(
        tokenize("x\"y z\""),
        Tokenization::Complete(vec!["xy z".to_string()])
    );
}

#[test]
fn escaped_space_splits_and_stands_alone() {
    assert_eq!(
        tokenize(r"x\ y"),
        Tokenization::Complete(vec!["x".to_string(), " ".to_string(), "y".to_string()])
    );
}

#[test]
fn escaped_space_at_end_of_input_flushes_empty_word() {
    assert_eq!(
        tokenize(r"a\ "),
        Tokenization::Complete(vec!["a".to_string(), " ".to_string(), "".to_string()])
    );
}

#[test]
fn escaped_nonwhitespace_is_taken_literally() {
    assert_eq!(tokenize(r"x\ny"), Tokenization::Complete(vec!["xny".to_string()]));
    assert_eq!(tokenize(r"a\'b"), Tokenization::Complete(vec!["a'b".to_string()]));
    assert_eq!(tokenize(r"a\\b"), Tokenization::Complete(vec![r"a\b".to_string()]));
}

#[test]
fn escaped_tab_splits_like_escaped_space() {
    assert_eq!(
        tokenize("a\\\tb"),
        Tokenization::Complete(vec!["a".to_string(), "\t".to_string(), "b".to_string()])
    );
}

#[test]
fn tab_is_an_ordinary_character_not_a_separator() {
    assert_eq!(tokenize("\ta"), Tokenization::Complete(vec!["\ta".to_string()]));
}

#[test]
fn escape_applies_inside_quote_spans_too() {
    assert_eq!(
        tokenize(r"'a\ b'"),
        Tokenization::Complete(vec!["a".to_string(), " ".to_string(), "b".to_string()])
    );
}

#[test]
fn trailing_backslash_is_dropped() {
    assert_eq!(tokenize(r"ab\"), Tokenization::Complete(vec!["ab".to_string()]));
    assert_eq!(tokenize(r"\"), Tokenization::Complete(vec![]));
}

#[test]
fn unterminated_quotes_are_incomplete() {
    assert_eq!(tokenize("'abc"), Tokenization::Incomplete);
    assert_eq!(tokenize("\"abc"), Tokenization::Incomplete);
    assert_eq!(tokenize("abc'"), Tokenization::Incomplete);
    assert_eq!(tokenize("echo 'hello"), Tokenization::Incomplete);
}

#[test]
fn empty_quotes_standing_alone_at_end_yield_empty_token() {
    assert_eq!(
        tokenize("a ''"),
        Tokenization::Complete(vec!["a".to_string(), "".to_string()])
    );
}

#[test]
fn empty_quotes_at_a_trailing_space_yield_empty_token() {
    assert_eq!(tokenize("'' "), Tokenization::Complete(vec!["".to_string()]));
}

#[test]
fn empty_quotes_before_a_word_yield_no_empty_token() {
    assert_eq!(tokenize("'' a"), Tokenization::Complete(vec!["a".to_string()]));
}

#[test]
fn escape_consuming_the_closing_quote_ends_the_scan() {
    assert_eq!(tokenize(r"'a\'"), Tokenization::Complete(vec!["a'".to_string()]));
}

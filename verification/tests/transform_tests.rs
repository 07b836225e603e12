use mksite::error::Error;
use mksite::transform::{parse_command, Transform, TransformRun};

#[test]
fn parse_command_splits_on_whitespace() {
    let argv = parse_command(&"pandoc -f markdown -t html".to_string()).unwrap();
    assert_eq!(argv, vec!["pandoc", "-f", "markdown", "-t", "html"]);
}

#[test]
fn parse_command_respects_quoting() {
    let argv = parse_command(&"sed 's/a b/c d/'".to_string()).unwrap();
    assert_eq!(argv, vec!["sed", "s/a b/c d/"]);
}

#[test]
fn parse_command_reports_an_unmatched_quote() {
    let r = parse_command(&"grep 'unterminated".to_string());
    assert_eq!(
        r,
        Err(Error::Shell {
            command: "grep 'unterminated".to_string(),
        })
    );
}

#[test]
fn commands_of_a_single_is_that_command() {
    let t = Transform::Single("rev".to_string());
    assert_eq!(t.commands(), vec!["rev"]);
}

#[test]
fn commands_of_a_chain_keep_their_order() {
    let t = Transform::Chain(vec!["rev".to_string(), "upper".to_string()]);
    assert_eq!(t.commands(), vec!["rev", "upper"]);
}

#[test]
fn describe_quotes_a_single_command() {
    let t = Transform::Single("rev".to_string());
    assert_eq!(t.describe(), "`rev'");
}

#[test]
fn describe_joins_a_chain_with_pipes() {
    let t = Transform::Chain(vec!["rev".to_string(), "upper".to_string()]);
    assert_eq!(t.describe(), "`rev | upper'");
}

#[test]
fn single_run_feeds_input_and_takes_one_output() {
    let t = Transform::Single("rev".to_string());
    let mut run = TransformRun::new(&t, b"abc".to_vec());
    assert_eq!(run.content, b"abc".to_vec());
    assert_eq!(run.pending().unwrap(), "rev");
    run.advance(b"cba".to_vec());
    assert!(run.is_finished());
    assert!(run.pending().is_none());
    assert_eq!(run.into_content(), b"cba".to_vec());
}

#[test]
fn chain_runs_strictly_in_sequence() {
    // The chain must behave as `rev` applied first, its output piped into
    // `upper`: same commands in the same order over the same intermediate
    // content as two single runs composed by hand.
    let chain = Transform::Chain(vec!["rev".to_string(), "upper".to_string()]);
    let mut run = TransformRun::new(&chain, b"abc".to_vec());

    let first = Transform::Single("rev".to_string());
    let mut run1 = TransformRun::new(&first, b"abc".to_vec());

    assert_eq!(run.pending().unwrap(), run1.pending().unwrap());
    assert_eq!(run.content, run1.content);
    run.advance(b"cba".to_vec());
    run1.advance(b"cba".to_vec());
    let intermediate = run1.into_content();

    let second = Transform::Single("upper".to_string());
    let mut run2 = TransformRun::new(&second, intermediate);

    assert_eq!(run.pending().unwrap(), run2.pending().unwrap());
    assert_eq!(run.content, run2.content);
    run.advance(b"CBA".to_vec());
    run2.advance(b"CBA".to_vec());
    assert!(run.is_finished());
    assert!(run2.is_finished());
    assert_eq!(run.into_content(), run2.into_content());
}

#[test]
fn an_empty_chain_leaves_the_content_untouched() {
    let t = Transform::Chain(Vec::new());
    let run = TransformRun::new(&t, b"abc".to_vec());
    assert!(run.is_finished());
    assert_eq!(run.into_content(), b"abc".to_vec());
}

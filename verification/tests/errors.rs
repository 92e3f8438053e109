use bip300_enforcer::chain_writer::{ChainWriter, WriteAction, WriteEvent};
use bip300_enforcer::errors::{ErrorChain, ErrorNode, Splittable};

fn node(message: &str, source: Option<ErrorNode>) -> ErrorNode {
    ErrorNode { message: message.to_string(), source: source.map(Box::new) }
}

#[test]
fn error_without_cause_shows_its_text() {
    let err = node("disk full", None);
    assert_eq!(ErrorChain::new(&err).to_string(), "disk full");
}

#[test]
fn causes_follow_in_order() {
    let err = node(
        "cannot mine",
        Some(node("cannot sign", Some(node("no key", None)))),
    );
    assert_eq!(ErrorChain::new(&err).to_string(), "cannot mine: cannot sign: no key");
}

#[test]
fn empty_texts_keep_their_separators() {
    let err = node("", Some(node("", None)));
    assert_eq!(ErrorChain::new(&err).to_string(), ": ");
}

#[test]
fn fmt_appends_to_what_is_there() {
    let err = node("a", Some(node("b", None)));
    let mut out = "error: ".to_string();
    ErrorChain::new(&err).fmt(&mut out);
    assert_eq!(out, "error: a: b");
}

#[test]
fn splittable_is_fatal_as_its_inner_error_is() {
    let wrapped = Splittable::from(7u8);
    assert!(wrapped.is_fatal(|e: &u8| *e > 5));
    assert!(!wrapped.is_fatal(|e: &u8| *e > 7));
    let boxed = Box::new(wrapped);
    assert!(Splittable::boxed_is_fatal(&boxed, |e: &u8| *e > 5));
}

#[test]
fn splittable_splits_as_its_inner_error_does() {
    fn split(e: u8) -> Result<String, u64> {
        if e > 5 {
            Err(e as u64 * 10)
        } else {
            Ok(format!("minor {}", e))
        }
    }
    assert_eq!(Splittable(7u8).split(split), Err(70));
    assert_eq!(Splittable(3u8).split(split), Ok("minor 3".to_string()));
    assert_eq!(Splittable::boxed_split(Box::new(Splittable(3u8)), split), Ok("minor 3".to_string()));
    assert_eq!(Splittable::boxed_split(Box::new(Splittable(8u8)), split), Err(80));
}

#[test]
fn wrapped_error_shows_the_same_chain() {
    let err = || node("cannot mine", Some(node("cannot sign", Some(node("no key", None)))));
    let plain = ErrorChain::new(&err()).to_string();
    let wrapped = Splittable(err());
    assert_eq!(ErrorChain::new(wrapped.node()).to_string(), plain);
    assert_eq!(wrapped.node().message, "cannot mine");
}

/// Writes the chain of `err`, where the piece at `failing` cannot be written. The
/// second part says how often a cause was asked for, the third whether it finished.
fn write_pieces(err: &ErrorNode, failing: usize) -> (String, usize, bool) {
    let mut text = String::new();
    let mut pieces = 0;
    let mut asked = 0;
    let mut shown = err;
    let mut writer = ChainWriter::new();
    loop {
        let piece = match writer.action() {
            WriteAction::WriteError | WriteAction::WriteCause => shown.message.as_str(),
            WriteAction::WriteSeparator => ": ",
            WriteAction::AskCause => {
                asked += 1;
                let cause = shown.source.as_deref();
                if let Some(cause) = cause {
                    shown = cause;
                }
                writer = writer.step(WriteEvent::Cause(cause.is_some())).unwrap();
                continue;
            }
            WriteAction::Finish => return (text, asked, true),
            WriteAction::Fail => return (text, asked, false),
        };
        let event = if pieces == failing {
            WriteEvent::Failed
        } else {
            text.push_str(piece);
            WriteEvent::Written
        };
        pieces += 1;
        writer = writer.step(event).unwrap();
    }
}

#[test]
fn pieces_are_the_displayed_text() {
    let err = node("a", Some(node("b", Some(node("c", None)))));
    assert_eq!(write_pieces(&err, 99), (ErrorChain::new(&err).to_string(), 3, true));
    let err = node("a", None);
    assert_eq!(write_pieces(&err, 99), ("a".to_string(), 1, true));
}

#[test]
fn failed_write_asks_for_no_further_cause() {
    let err = node("a", Some(node("b", Some(node("c", None)))));
    assert_eq!(write_pieces(&err, 0), ("".to_string(), 0, false));
    assert_eq!(write_pieces(&err, 1), ("a".to_string(), 1, false));
    assert_eq!(write_pieces(&err, 2), ("a: ".to_string(), 1, false));
    assert_eq!(write_pieces(&err, 3), ("a: b".to_string(), 2, false));
}

#[test]
fn writer_takes_only_answers() {
    assert!(ChainWriter::new().step(WriteEvent::Cause(true)).is_none());
    let writer = ChainWriter::new().step(WriteEvent::Written).unwrap();
    assert_eq!(writer.action(), WriteAction::AskCause);
    assert!(writer.step(WriteEvent::Failed).is_none());
    let writer = ChainWriter::new().step(WriteEvent::Failed).unwrap();
    assert_eq!(writer.action(), WriteAction::Fail);
    assert!(writer.step(WriteEvent::Written).is_none());
}

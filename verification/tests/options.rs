use csv_records::recorder::options::{Builder as RecorderBuilder, Handle as RecorderHandle};
use csv_records::recorder::Options as RecorderOptions;
use csv_records::tokenizer::options::{is_control, Builder, Error, ErrorKind, Handle, LineBreak};
use csv_records::tokenizer::Options;

#[test]
fn tokenizer_options_start_from_comma_quote_and_both_characters() {
    let options = Options::default();
    assert!(!options.allow_controls());
    assert_eq!(options.delimiter(), ',');
    assert_eq!(options.line_break(), LineBreak::Crlf);
    assert_eq!(options.quote(), '"');
    assert_eq!(LineBreak::default(), LineBreak::Crlf);
}

#[test]
fn set_delimiter_checks_the_character() {
    let mut options = Options::default();
    assert_eq!(options.set_delimiter(';'), Ok(()));
    assert_eq!(options.delimiter(), ';');
    assert_eq!(options.set_delimiter('\t'), Err(Error::new(ErrorKind::ControlChar('\t'))));
    assert_eq!(options.set_delimiter('\u{85}'), Err(Error::new(ErrorKind::ControlChar('\u{85}'))));
    assert_eq!(options.set_delimiter('"'), Err(Error::new(ErrorKind::UsedByQuote('"'))));
    assert_eq!(options.delimiter(), ';');
    assert_eq!(options.quote(), '"');
    assert_eq!(options.set_delimiter(';'), Ok(()));
    assert_eq!(options.set_delimiter(','), Ok(()));
    assert_eq!(options, Options::default());
}

#[test]
fn set_quote_checks_the_character() {
    let mut options = Options::default();
    assert_eq!(options.set_quote('\''), Ok(()));
    assert_eq!(options.quote(), '\'');
    assert_eq!(options.set_quote('\n'), Err(Error::new(ErrorKind::ControlChar('\n'))));
    assert_eq!(options.set_quote('\u{7f}'), Err(Error::new(ErrorKind::ControlChar('\u{7f}'))));
    assert_eq!(options.set_quote(','), Err(Error::new(ErrorKind::UsedByDelimiter(','))));
    assert_eq!(options.quote(), '\'');
    assert_eq!(options.delimiter(), ',');
    assert_eq!(options.set_quote('"'), Ok(()));
    assert_eq!(options, Options::default());
}

#[test]
fn delimiter_and_quote_may_trade_places_in_two_steps() {
    let mut options = Options::default();
    assert_eq!(options.set_delimiter('"'), Err(Error::new(ErrorKind::UsedByQuote('"'))));
    assert_eq!(options.set_quote('\''), Ok(()));
    assert_eq!(options.set_delimiter('"'), Ok(()));
    assert_eq!(options.set_quote(','), Ok(()));
    assert_eq!(options.delimiter(), '"');
    assert_eq!(options.quote(), ',');
}

#[test]
fn tokenizer_options_setters_and_borrows() {
    let mut options = Options::default();
    options.set_allow_controls(true);
    assert!(options.allow_controls());
    *options.allow_controls_mut() = false;
    assert!(!options.allow_controls());
    options.set_line_break(LineBreak::Any);
    assert_eq!(options.line_break(), LineBreak::Any);
    *options.line_break_mut() = LineBreak::Cr;
    assert_eq!(options.line_break(), LineBreak::Cr);
    assert_eq!(options.delimiter(), ',');
    assert_eq!(options.quote(), '"');
}

#[test]
fn tokenizer_options_built_by_value() {
    let options = Options::default()
        .with_allow_controls(true)
        .with_delimiter(';')
        .unwrap()
        .with_line_break(LineBreak::Lf)
        .with_quote('\'')
        .unwrap();
    assert!(options.allow_controls());
    assert_eq!(options.delimiter(), ';');
    assert_eq!(options.line_break(), LineBreak::Lf);
    assert_eq!(options.quote(), '\'');
    assert_eq!(
        Options::default().with_delimiter('"'),
        Err(Error::new(ErrorKind::UsedByQuote('"')))
    );
    assert_eq!(
        Options::default().with_quote(','),
        Err(Error::new(ErrorKind::UsedByDelimiter(',')))
    );
    assert_eq!(
        Options::default().with_quote('\r'),
        Err(Error::new(ErrorKind::ControlChar('\r')))
    );
}

#[test]
fn tokenizer_options_built_through_a_borrow() {
    let mut options = Options::default();
    (&mut options)
        .with_allow_controls(true)
        .with_delimiter(';')
        .unwrap()
        .with_line_break(LineBreak::Lf)
        .with_quote('\'')
        .unwrap();
    assert!(options.allow_controls());
    assert_eq!(options.delimiter(), ';');
    assert_eq!(options.line_break(), LineBreak::Lf);
    assert_eq!(options.quote(), '\'');
    assert!((&mut options).with_delimiter('\'').is_err());
    assert!((&mut options).with_quote('\0').is_err());
    assert_eq!(options.delimiter(), ';');
    assert_eq!(options.quote(), '\'');
}

#[test]
fn tokenizer_options_handles_give_the_options() {
    let mut options = Options::default().with_line_break(LineBreak::Any);
    let copy = options.clone();
    assert_eq!(options.get(), &copy);
    assert_eq!((&options).get(), &copy);
    assert_eq!((&mut options).get(), &copy);
}

#[test]
fn options_error_hands_out_its_kind() {
    let error = Error::new(ErrorKind::UsedByQuote('"'));
    assert_eq!(*error.kind(), ErrorKind::UsedByQuote('"'));
    assert_eq!(error, Error { kind: ErrorKind::UsedByQuote('"') });
    assert_ne!(error, Error::new(ErrorKind::UsedByDelimiter('"')));
}

#[test]
fn line_break_contains_the_characters_of_its_sequences() {
    let table = [
        (LineBreak::Crlf, true, true),
        (LineBreak::Cr, true, false),
        (LineBreak::Lf, false, true),
        (LineBreak::Any, true, true),
    ];
    for (mode, carriage_return, line_feed) in table {
        assert_eq!(mode.contains('\r'), carriage_return);
        assert_eq!(mode.contains('\n'), line_feed);
        assert!(!mode.contains(','));
        assert!(!mode.contains('\t'));
    }
}

#[test]
fn line_break_begins_with_the_first_character_of_its_sequences() {
    let table = [
        (LineBreak::Crlf, true, false),
        (LineBreak::Cr, true, false),
        (LineBreak::Lf, false, true),
        (LineBreak::Any, true, true),
    ];
    for (mode, carriage_return, line_feed) in table {
        assert_eq!(mode.begins_with('\r'), carriage_return);
        assert_eq!(mode.begins_with('\n'), line_feed);
        assert!(!mode.begins_with(','));
        assert!(!mode.begins_with('\t'));
    }
}

#[test]
fn line_break_tells_its_variant() {
    let modes = [LineBreak::Crlf, LineBreak::Cr, LineBreak::Lf, LineBreak::Any];
    for (i, mode) in modes.iter().enumerate() {
        assert_eq!(mode.is_crlf(), i == 0);
        assert_eq!(mode.is_cr(), i == 1);
        assert_eq!(mode.is_lf(), i == 2);
        assert_eq!(mode.is_any(), i == 3);
    }
}

#[test]
fn control_codes_are_those_of_the_standard_library() {
    for code in 0..=0x10ffff_u32 {
        if let Some(ch) = char::from_u32(code) {
            assert_eq!(is_control(ch), ch.is_control(), "U+{:04X}", code);
        }
    }
    assert!(is_control('\0'));
    assert!(is_control('\u{1f}'));
    assert!(!is_control(' '));
    assert!(!is_control('~'));
    assert!(is_control('\u{7f}'));
    assert!(is_control('\u{9f}'));
    assert!(!is_control('\u{a0}'));
}

#[test]
fn recorder_options_start_strict() {
    let options = RecorderOptions::default();
    assert!(!options.at_least_one());
    assert!(!options.trailing_delimiter());
}

#[test]
fn recorder_options_setters_and_borrows() {
    let mut options = RecorderOptions::default();
    options.set_at_least_one(true);
    assert!(options.at_least_one());
    assert!(!options.trailing_delimiter());
    *options.at_least_one_mut() = false;
    assert!(!options.at_least_one());
    options.set_trailing_delimiter(true);
    assert!(options.trailing_delimiter());
    assert!(!options.at_least_one());
    *options.trailing_delimiter_mut() = false;
    assert_eq!(options, RecorderOptions::default());
}

#[test]
fn recorder_options_built_by_value_and_through_a_borrow() {
    let options = RecorderOptions::default().with_at_least_one(true);
    assert!(options.at_least_one());
    assert!(!options.trailing_delimiter());
    let options = options.with_trailing_delimiter(true).with_at_least_one(false);
    assert!(!options.at_least_one());
    assert!(options.trailing_delimiter());
    let mut borrowed = RecorderOptions::default();
    (&mut borrowed).with_at_least_one(true).with_trailing_delimiter(true);
    assert!(borrowed.at_least_one());
    assert!(borrowed.trailing_delimiter());
}

#[test]
fn recorder_options_handles_give_the_options() {
    let mut options = RecorderOptions::default().with_at_least_one(true);
    let copy = options.clone();
    assert_eq!(options.get(), &copy);
    assert_eq!((&options).get(), &copy);
    assert_eq!((&mut options).get(), &copy);
}

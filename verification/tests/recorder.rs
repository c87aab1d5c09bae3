use csv_records::recorder::options::Builder;
use csv_records::recorder::step::{self, Position};
use csv_records::recorder::{Error, ErrorKind, Into, Options};
use csv_records::token::{Kind, Token};
use csv_records::tokenizer::options::{Builder as TokenizerBuilder, LineBreak};
use csv_records::tokenizer::{Into as IntoTokenizer, Options as TokenizerOptions};

fn tokens_of(s: &str) -> Vec<Token> {
    let characters: Vec<char> = s.chars().collect();
    characters.as_slice().csv_tokens().collect().unwrap()
}

fn field_token(idx: usize, text: &str) -> Token {
    Token::new(idx, Kind::Field(text.to_string()))
}

fn texts(fields: &[&str]) -> Vec<String> {
    fields.iter().map(|f| f.to_string()).collect()
}

fn text(s: &str) -> Option<Result<String, Error>> {
    Some(Ok(s.to_string()))
}

#[test]
fn record_of_one_line() {
    let tokens = tokens_of("a,b,c\r\n");
    assert_eq!(tokens.as_slice().csv_record().collect(), Ok(texts(&["a", "b", "c"])));
}

#[test]
fn two_delimiters_in_a_row_hold_an_empty_field() {
    let tokens = tokens_of("a,,b");
    assert_eq!(tokens.as_slice().csv_record().collect(), Ok(texts(&["a", "", "b"])));
}

#[test]
fn delimiter_in_front_stands_behind_an_empty_field() {
    let tokens = tokens_of(",a");
    assert_eq!(tokens.as_slice().csv_record().collect(), Ok(texts(&["", "a"])));
    let tokens = tokens_of(",,");
    let lenient = Options::default().with_trailing_delimiter(true);
    assert_eq!(tokens.as_slice().csv_record_custom(lenient).collect(), Ok(texts(&["", "", ""])));
}

#[test]
fn delimiter_at_the_end_of_the_input() {
    let tokens = tokens_of("a,");
    assert_eq!(
        tokens.as_slice().csv_record().collect(),
        Err(Error::new(1, ErrorKind::TrailingDelimiter))
    );
    let lenient = Options::default().with_trailing_delimiter(true);
    assert_eq!(tokens.as_slice().csv_record_custom(lenient).collect(), Ok(texts(&["a", ""])));
}

#[test]
fn delimiter_at_the_end_of_a_line() {
    let tokens = tokens_of("ab,cd,\r\ne");
    assert_eq!(
        tokens.as_slice().csv_record().collect(),
        Err(Error::new(5, ErrorKind::TrailingDelimiter))
    );
    let lenient = Options::default().with_trailing_delimiter(true);
    let mut recorder = tokens.as_slice().csv_record_custom(&lenient);
    assert_eq!(recorder.collect(), Ok(texts(&["ab", "cd", ""])));
    recorder.reset();
    assert_eq!(recorder.collect(), Ok(texts(&["e"])));
}

#[test]
fn two_fields_in_a_row_are_refused_at_the_second() {
    let tokens = vec![field_token(0, "a"), field_token(4, "b")];
    let mut recorder = tokens.as_slice().csv_record();
    assert_eq!(recorder.next(), text("a"));
    assert_eq!(recorder.next(), Some(Err(Error::new(4, ErrorKind::UndelimitedFields))));
    assert_eq!(
        tokens.as_slice().csv_record().collect(),
        Err(Error::new(4, ErrorKind::UndelimitedFields))
    );
    let tokens = vec![
        field_token(0, "a"),
        Token::new(1, Kind::Delimiter),
        field_token(2, "b"),
        field_token(9, "c"),
    ];
    assert_eq!(
        tokens.as_slice().csv_record().collect(),
        Err(Error::new(9, ErrorKind::UndelimitedFields))
    );
}

#[test]
fn no_tokens_are_no_field_or_one_empty_field() {
    let none: Vec<Token> = Vec::new();
    assert_eq!(none.as_slice().csv_record().collect(), Ok(texts(&[])));
    let at_least_one = Options::default().with_at_least_one(true);
    assert_eq!(none.as_slice().csv_record_custom(at_least_one).collect(), Ok(texts(&[""])));
}

#[test]
fn empty_line_is_no_field_or_one_empty_field() {
    let tokens = tokens_of("\r\na");
    let mut recorder = tokens.as_slice().csv_record();
    assert_eq!(recorder.collect(), Ok(texts(&[])));
    recorder.reset();
    assert_eq!(recorder.collect(), Ok(texts(&["a"])));
    let at_least_one = Options::default().with_at_least_one(true);
    let mut recorder = tokens.as_slice().csv_record_custom(at_least_one);
    assert_eq!(recorder.collect(), Ok(texts(&[""])));
    recorder.reset();
    assert_eq!(recorder.collect(), Ok(texts(&["a"])));
}

#[test]
fn recorder_hands_out_one_field_at_a_time() {
    let tokens = tokens_of("a,b\r\nc");
    let mut recorder = tokens.as_slice().csv_record();
    assert_eq!(recorder.next(), text("a"));
    assert_eq!(recorder.next(), text("b"));
    assert_eq!(recorder.next(), None);
    assert_eq!(recorder.next(), None);
    recorder.reset();
    assert_eq!(recorder.next(), text("c"));
    assert_eq!(recorder.next(), None);
    assert_eq!(recorder.next(), None);
    recorder.reset();
    assert_eq!(recorder.next(), None);
}

#[test]
fn record_ends_for_good_until_reset() {
    let tokens = tokens_of("a\r\nb");
    let mut recorder = tokens.as_slice().csv_record();
    assert_eq!(recorder.collect(), Ok(texts(&["a"])));
    assert_eq!(recorder.collect(), Ok(texts(&[])));
    assert_eq!(recorder.next(), None);
    recorder.reset();
    assert_eq!(recorder.collect(), Ok(texts(&["b"])));
}

#[test]
fn recorder_with_borrowed_options() {
    let tokens = tokens_of("a,");
    let mut options = Options::default();
    options.set_trailing_delimiter(true);
    let expected = Ok(texts(&["a", ""]));
    assert_eq!(tokens.as_slice().csv_record_custom(&options).collect(), expected);
    assert_eq!(tokens.as_slice().csv_record_custom(&mut options).collect(), expected);
    assert_eq!(tokens.as_slice().csv_record_custom(options).collect(), expected);
}

#[test]
fn cloned_recorder_goes_its_own_way() {
    let tokens = tokens_of("a,b");
    let mut first = tokens.as_slice().csv_record();
    assert_eq!(first.next(), text("a"));
    let mut second = first.clone();
    assert_eq!(first.next(), text("b"));
    assert_eq!(second.next(), text("b"));
    assert_eq!(second.next(), None);
}

#[test]
fn all_records_until_the_tokens_end() {
    let tokens = tokens_of("a,b\r\nc\r\n\r\nd,e,f");
    assert_eq!(
        tokens.as_slice().csv_record().collect_all(),
        Ok(vec![texts(&["a", "b"]), texts(&["c"]), texts(&[]), texts(&["d", "e", "f"])])
    );
    let at_least_one = Options::default().with_at_least_one(true);
    assert_eq!(
        tokens.as_slice().csv_record_custom(at_least_one).collect_all(),
        Ok(vec![texts(&["a", "b"]), texts(&["c"]), texts(&[""]), texts(&["d", "e", "f"])])
    );
    let none: Vec<Token> = Vec::new();
    assert_eq!(none.as_slice().csv_record().collect_all(), Ok(vec![]));
    let tokens = tokens_of("a\r\nb,\r\nc");
    assert_eq!(
        tokens.as_slice().csv_record().collect_all(),
        Err(Error::new(4, ErrorKind::TrailingDelimiter))
    );
}

#[test]
fn all_records_behind_fields_already_read() {
    let tokens = tokens_of("a,b\r\nc");
    let mut recorder = tokens.as_slice().csv_record();
    assert_eq!(recorder.next(), text("a"));
    assert_eq!(recorder.collect_all(), Ok(vec![texts(&["", "b"]), texts(&["c"])]));
}

fn written(records: &[Vec<&str>], delimiter: char, quote: char, ending: &str) -> String {
    let mut out = String::new();
    for record in records {
        for (i, field) in record.iter().enumerate() {
            if i > 0 {
                out.push(delimiter);
            }
            out.push(quote);
            for ch in field.chars() {
                if ch == quote {
                    out.push(quote);
                }
                out.push(ch);
            }
            out.push(quote);
        }
        out.push_str(ending);
    }
    out
}

#[test]
fn written_records_are_read_back() {
    let cases = [
        (',', '"', LineBreak::Crlf, "\r\n", "a\r\nb"),
        (',', '"', LineBreak::Cr, "\r", "a\rb"),
        (',', '"', LineBreak::Lf, "\n", "a\nb"),
        (',', '"', LineBreak::Any, "\r\n", "a\r\nb\nc\rd"),
        (',', '"', LineBreak::Any, "\r", "a\rb\r"),
        (',', '"', LineBreak::Any, "\n", "\n\r"),
        (';', '\'', LineBreak::Crlf, "\r\n", ""),
        ('|', '$', LineBreak::Lf, "\n", "$$|$"),
        ('"', ',', LineBreak::Any, "\n", "\",\""),
    ];
    for (delimiter, quote, line_break, ending, odd) in cases {
        let records = vec![
            vec!["a", "", "it's", odd],
            vec!["he said \"hi\""],
            vec![""],
            vec!["x,y;z|w", "é", "$1", "'"],
        ];
        let text = written(&records, delimiter, quote, ending);
        let mut options = TokenizerOptions::default();
        options.set_quote('\u{2028}').unwrap();
        options.set_delimiter(delimiter).unwrap();
        options.set_quote(quote).unwrap();
        let options = options.with_line_break(line_break);
        let characters: Vec<char> = text.chars().collect();
        let tokens = characters.as_slice().csv_tokens_custom(&options).collect().unwrap();
        let expected: Vec<Vec<String>> = records.iter().map(|r| texts(r)).collect();
        for at_least_one in [false, true] {
            for trailing_delimiter in [false, true] {
                let recorder = Options::default()
                    .with_at_least_one(at_least_one)
                    .with_trailing_delimiter(trailing_delimiter);
                assert_eq!(
                    tokens.as_slice().csv_record_custom(recorder).collect_all(),
                    Ok(expected.clone())
                );
            }
        }
    }
}

#[test]
fn step_at_the_start() {
    let options = Options::default();
    let tokens = tokens_of("ab,c\r\n");
    let (mut cursor, mut pos) = (0, Position::Start);
    assert_eq!(step::next(&tokens, &mut cursor, &mut pos, &options), text("ab"));
    assert_eq!((cursor, pos), (1, Position::Middle));

    let tokens = tokens_of(",c");
    let (mut cursor, mut pos) = (0, Position::Start);
    assert_eq!(step::next(&tokens, &mut cursor, &mut pos, &options), text(""));
    assert_eq!((cursor, pos), (0, Position::Middle));

    let tokens = tokens_of("\r\nc");
    let (mut cursor, mut pos) = (0, Position::Start);
    assert_eq!(step::next(&tokens, &mut cursor, &mut pos, &options), None);
    assert_eq!((cursor, pos), (1, Position::End));

    let (mut cursor, mut pos) = (2, Position::Start);
    assert_eq!(step::next(&tokens, &mut cursor, &mut pos, &options), None);
    assert_eq!((cursor, pos), (2, Position::End));

    let at_least_one = Options::default().with_at_least_one(true);
    let (mut cursor, mut pos) = (0, Position::Start);
    assert_eq!(step::next(&tokens, &mut cursor, &mut pos, &at_least_one), text(""));
    assert_eq!((cursor, pos), (1, Position::End));
    let (mut cursor, mut pos) = (5, Position::Start);
    assert_eq!(step::next(&tokens, &mut cursor, &mut pos, &at_least_one), text(""));
    assert_eq!((cursor, pos), (5, Position::End));
}

#[test]
fn step_in_the_middle() {
    let options = Options::default();
    let lenient = Options::default().with_trailing_delimiter(true);
    let tokens = tokens_of("a,b,,\r\nc,");

    let (mut cursor, mut pos) = (1, Position::Middle);
    assert_eq!(step::next(&tokens, &mut cursor, &mut pos, &options), text("b"));
    assert_eq!((cursor, pos), (3, Position::Middle));
    assert_eq!(step::next(&tokens, &mut cursor, &mut pos, &options), text(""));
    assert_eq!((cursor, pos), (4, Position::Middle));
    assert_eq!(
        step::next(&tokens, &mut cursor, &mut pos, &options),
        Some(Err(Error::new(4, ErrorKind::TrailingDelimiter)))
    );
    assert_eq!((cursor, pos), (6, Position::End));

    let (mut cursor, mut pos) = (4, Position::Middle);
    assert_eq!(step::next(&tokens, &mut cursor, &mut pos, &lenient), text(""));
    assert_eq!((cursor, pos), (6, Position::End));

    let (mut cursor, mut pos) = (7, Position::Middle);
    assert_eq!(
        step::next(&tokens, &mut cursor, &mut pos, &options),
        Some(Err(Error::new(8, ErrorKind::TrailingDelimiter)))
    );
    assert_eq!((cursor, pos), (8, Position::End));
    let (mut cursor, mut pos) = (7, Position::Middle);
    assert_eq!(step::next(&tokens, &mut cursor, &mut pos, &lenient), text(""));
    assert_eq!((cursor, pos), (8, Position::End));

    let (mut cursor, mut pos) = (5, Position::Middle);
    assert_eq!(step::next(&tokens, &mut cursor, &mut pos, &options), None);
    assert_eq!((cursor, pos), (6, Position::End));

    let (mut cursor, mut pos) = (8, Position::Middle);
    assert_eq!(step::next(&tokens, &mut cursor, &mut pos, &options), None);
    assert_eq!((cursor, pos), (8, Position::End));

    let (mut cursor, mut pos) = (0, Position::Middle);
    assert_eq!(
        step::next(&tokens, &mut cursor, &mut pos, &options),
        Some(Err(Error::new(0, ErrorKind::UndelimitedFields)))
    );
    assert_eq!((cursor, pos), (1, Position::Middle));
}

#[test]
fn step_at_the_end() {
    let options = Options::default().with_at_least_one(true).with_trailing_delimiter(true);
    let tokens = tokens_of("a,b");
    let (mut cursor, mut pos) = (0, Position::End);
    assert_eq!(step::next(&tokens, &mut cursor, &mut pos, &options), None);
    assert_eq!((cursor, pos), (0, Position::End));
}

#[test]
fn position_starts_at_the_start() {
    assert_eq!(Position::default(), Position::Start);
}

#[test]
fn recorder_error_hands_out_its_kind() {
    let error = Error::new(2, ErrorKind::TrailingDelimiter);
    assert_eq!(*error.kind(), ErrorKind::TrailingDelimiter);
    assert_eq!(error, Error { at: 2, kind: ErrorKind::TrailingDelimiter });
    assert_ne!(error, Error::new(2, ErrorKind::UndelimitedFields));
}

#[test]
fn written_records_with_plain_fields_are_read_back() {
    let cases = [
        (LineBreak::Crlf, "\r\n"),
        (LineBreak::Cr, "\r"),
        (LineBreak::Lf, "\n"),
        (LineBreak::Any, "\r\n"),
        (LineBreak::Any, "\r"),
        (LineBreak::Any, "\n"),
    ];
    for (line_break, ending) in cases {
        let text = ["a;'b;c';d e", "'x';y;'z''s'", "'';w;'q;r'", "1;2;3"]
            .iter()
            .map(|line| format!("{line}{ending}"))
            .collect::<String>();
        let options = TokenizerOptions::default()
            .with_quote('\'')
            .unwrap()
            .with_delimiter(';')
            .unwrap()
            .with_line_break(line_break);
        let characters: Vec<char> = text.chars().collect();
        let tokens = characters.as_slice().csv_tokens_custom(&options).collect().unwrap();
        let expected = vec![
            texts(&["a", "b;c", "d e"]),
            texts(&["x", "y", "z's"]),
            texts(&["", "w", "q;r"]),
            texts(&["1", "2", "3"]),
        ];
        for at_least_one in [false, true] {
            for trailing_delimiter in [false, true] {
                let recorder = Options::default()
                    .with_at_least_one(at_least_one)
                    .with_trailing_delimiter(trailing_delimiter);
                assert_eq!(
                    tokens.as_slice().csv_record_custom(recorder).collect_all(),
                    Ok(expected.clone())
                );
            }
        }
    }
}

#[test]
fn plain_fields_may_hold_control_codes_where_the_options_allow_them() {
    let options = TokenizerOptions::default()
        .with_allow_controls(true)
        .with_line_break(LineBreak::Lf);
    let characters: Vec<char> = "a\tb,c\rd\n\te,f\n".chars().collect();
    let tokens = characters.as_slice().csv_tokens_custom(&options).collect().unwrap();
    assert_eq!(
        tokens.as_slice().csv_record().collect_all(),
        Ok(vec![texts(&["a\tb", "c\rd"]), texts(&["\te", "f"])])
    );
}

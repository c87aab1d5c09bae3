use csv_records::token::{Kind, Token};

#[test]
fn token_holds_offset_and_kind() {
    let token = Token::new(3, Kind::Field("ab".to_string()));
    assert_eq!(token.idx(), 3);
    assert_eq!(token.kind(), &Kind::Field("ab".to_string()));
    assert_eq!(token, Token { idx: 3, kind: Kind::Field("ab".to_string()) });
}

#[test]
fn token_setters_and_borrows() {
    let mut token = Token::new(0, Kind::Delimiter);
    token.set_idx(4);
    assert_eq!(token.idx(), 4);
    assert_eq!(token.kind(), &Kind::Delimiter);
    *token.idx_mut() += 1;
    assert_eq!(token.idx(), 5);
    token.set_kind(Kind::LineBreak);
    assert_eq!(token.kind(), &Kind::LineBreak);
    assert_eq!(token.idx(), 5);
    *token.kind_mut() = Kind::Field("x".to_string());
    assert_eq!(token, Token::new(5, Kind::Field("x".to_string())));
    if let Kind::Field(text) = token.kind_mut() {
        text.push('y');
    }
    assert_eq!(token, Token::new(5, Kind::Field("xy".to_string())));
}

#[test]
fn token_tells_its_kind() {
    let field = Token::new(0, Kind::Field(String::new()));
    let delimiter = Token::new(0, Kind::Delimiter);
    let line_break = Token::new(0, Kind::LineBreak);
    assert!(field.is_field() && !field.is_delimiter() && !field.is_line_break());
    assert!(!delimiter.is_field() && delimiter.is_delimiter() && !delimiter.is_line_break());
    assert!(!line_break.is_field() && !line_break.is_delimiter() && line_break.is_line_break());
}

#[test]
fn kind_tells_its_variant() {
    assert!(Kind::Field("a".to_string()).is_field());
    assert!(!Kind::Field("a".to_string()).is_delimiter());
    assert!(!Kind::Field("a".to_string()).is_line_break());
    assert!(Kind::Delimiter.is_delimiter());
    assert!(!Kind::Delimiter.is_field());
    assert!(Kind::LineBreak.is_line_break());
    assert!(!Kind::LineBreak.is_field());
}

#[test]
fn kind_hands_out_the_text_of_a_field() {
    let field = Kind::Field("ab".to_string());
    assert_eq!(field.try_as_field_ref(), Some(&"ab".to_string()));
    assert_eq!(field.try_as_field(), Some("ab".to_string()));
    assert_eq!(Kind::Delimiter.try_as_field_ref(), None);
    assert_eq!(Kind::Delimiter.try_as_field(), None);
    assert_eq!(Kind::LineBreak.try_as_field_ref(), None);
    assert_eq!(Kind::LineBreak.try_as_field(), None);
}

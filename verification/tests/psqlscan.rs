use pgbb::run::psqlscan::statement_boundary;

  #[test]
  fn basic() {
    let sql = br"SELECT 1; SELECT 2;";
    assert_eq!(statement_boundary(sql), 10);
  }

  #[test]
  fn no_trailing_semicolon() {
    let sql = br"SELECT 1";
    assert_eq!(statement_boundary(sql), sql.len());
  }

  #[test]
  fn parentheses() {
    let sql = br"SELECT (1; 2); _";
    assert_eq!(statement_boundary(sql), sql.len() - 1);
  }

  #[test]
  fn parentheses_unbalanced() {
    let sql = br"SELECT (1; 2)); _";
    assert_eq!(statement_boundary(sql), sql.len() - 1);
  }

  #[test]
  fn string() {
    let sql = br"SELECT 'hello;world\'; _";
    assert_eq!(statement_boundary(sql), sql.len() - 1);
  }

  #[test]
  fn string_incomplete() {
    let sql = br"SELECT 'hello; _";
    assert_eq!(statement_boundary(sql), sql.len());
  }

  #[test]
  fn e_string() {
    let sql = br"SELECT E'hello\';world'; _";
    assert_eq!(statement_boundary(sql), sql.len() - 1);
  }

  #[test]
  fn e_string_continuation() {
    let sql = br"SELECT e'hello'
      'world\';'; _";
    assert_eq!(statement_boundary(sql), sql.len() - 1);
  }

  #[test]
  fn e_string_continuation_comment() {
    let sql = br"SELECT e'hello' -- comment
      'world\';'; _";
    assert_eq!(statement_boundary(sql), sql.len() - 1);
  }

  #[test]
  fn n_string() {
    let sql = br"SELECT n';\'; _";
    assert_eq!(statement_boundary(sql), sql.len() - 1);
  }

  #[test]
  fn n_string_continuation() {
    let sql = br"SELECT n'hello;'
      '\'; _";
    assert_eq!(statement_boundary(sql), sql.len() - 1);
  }

  #[test]
  fn u_string() {
    let sql = br"SELECT u&';\'; _";
    assert_eq!(statement_boundary(sql), sql.len() - 1);
  }

  #[test]
  fn u_string_continuation() {
    let sql = br"SELECT u&'hello'
      '\'; _";
    assert_eq!(statement_boundary(sql), sql.len() - 1);
  }

  #[test]
  fn double_quoted_identifier() {
    let sql = br#"SELECT "a;b"; _"#;
    assert_eq!(statement_boundary(sql), sql.len() - 1);
  }

  #[test]
  fn dollar_quote_empty_tag() {
    let sql = br"SELECT $$a;b\$$; _";
    assert_eq!(statement_boundary(sql), sql.len() - 1);
  }

  #[test]
  fn dollar_quote() {
    let sql = br"SELECT $tag_$a;b\$tag_$; _";
    assert_eq!(statement_boundary(sql), sql.len() - 1);
  }

  #[test]
  fn dollar_ident() {
    let sql = br"SELECT 1 _$$; $$";
    assert_eq!(statement_boundary(sql), 14);
  }

  #[test]
  fn parameter() {
    let sql = br"SELECT $1; _";
    assert_eq!(statement_boundary(sql), sql.len() - 1);
  }

  #[test]
  fn line_comment() {
    let sql = br"-- ;
      SELECT 1; _";
    assert_eq!(statement_boundary(sql), sql.len() - 1);
  }

  #[test]
  fn line_comment_incomplete() {
    let sql = br"-- hello";
    assert_eq!(statement_boundary(sql), sql.len());
  }

  #[test]
  fn block_comment() {
    let sql = br"/* /* */ ; */ SELECT 1; _";
    assert_eq!(statement_boundary(sql), sql.len() - 1);
  }

  #[test]
  fn begin_atomic() {
    let sql = br"
      create or replace function hello(lang text)
      returns text
      begin atomic;
        select case lang
          when 'fr' then 'bonjour;'
          else $$hello;$$
        end;
      end;
      _";
    assert_eq!(statement_boundary(sql), sql.len() - 1);
  }

  #[test]
  fn consume_trailing_whitespace() {
    // Consume trailing comments so the next statement starts
    // with an actual command. This way, if the next statement
    // fails without a position field, the resulting position
    // will point to the beginning of the actual command
    // rather than the leading comment.
    let sql = br"
      SELECT 1;
      -- line comment
      /* block comment */

      _";
    assert_eq!(statement_boundary(sql), sql.len() - 1);
  }

  #[test]
  fn empty_input() {
    assert_eq!(statement_boundary(b""), 0);
  }

  #[test]
  fn function_keywords_any_case() {
    let sql = b"CREATE FUNCTION f() RETURNS int BEGIN ATOMIC SELECT 1; END; _";
    assert_eq!(statement_boundary(sql), sql.len() - 1);
    let sql = b"Create Or Replace Procedure p() BEGIN ATOMIC SELECT 1; END; _";
    assert_eq!(statement_boundary(sql), sql.len() - 1);
  }

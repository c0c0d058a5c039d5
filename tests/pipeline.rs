use godotino_core::parser::ast::{Decl, Expr, Stmt};
use godotino_core::parser::Parser;
use godotino_core::lexer::Lexer;
use godotino_core::{pretty_error, tsukiError, Board, Pipeline, Span, TranspileConfig};

fn body_of(src: &str) -> Vec<Stmt> {
    let toks = Lexer::new(src, "t.go".to_string()).tokenize().unwrap();
    let prog = Parser::new(toks).parse_program().unwrap();
    match prog.decls.into_iter().next().unwrap() {
        Decl::Func(f) => f.body,
        _ => panic!("expected a function"),
    }
}

fn run(src: &str, cfg: TranspileConfig) -> Result<String, tsukiError> {
    Pipeline::new(cfg).run(src, "main.go")
}

const BLINK: &str = "package main\nimport \"arduino\"\nfunc setup() { arduino.pinMode(13, arduino.OUTPUT) }\nfunc loop() { arduino.digitalWrite(13, arduino.HIGH); arduino.delay(500) }";

#[test]
fn end_to_end_blink() {
    let cpp = run(BLINK, TranspileConfig::default()).unwrap();
    assert!(cpp.contains("void setup()"));
    assert!(cpp.contains("void loop()"));
    assert!(cpp.contains("pinMode(13, OUTPUT)"));
    assert!(cpp.contains("digitalWrite(13, HIGH)"));
    assert!(cpp.contains("delay(500)"));
    assert!(!cpp.contains("arduino."));
    assert!(cpp.contains("#include <Arduino.h>"));
}

#[test]
fn output_is_deterministic() {
    let a = run(BLINK, TranspileConfig::default()).unwrap();
    let b = run(BLINK, TranspileConfig::default()).unwrap();
    assert_eq!(a, b);
}

#[test]
fn intrinsic_rewrite() {
    let src = "package main\nfunc setup() {\n\tarduino.pinMode(13, arduino.OUTPUT)\n}\n";
    let cpp = run(src, TranspileConfig::default()).unwrap();
    assert!(cpp.contains("pinMode(13, OUTPUT)"));
}

#[test]
fn literal_radix_round_trip() {
    let src = "package main\nvar a = 0xFF\nvar b = 0b1010\nvar c = 0o77\nvar d = 42\n";
    let cpp = run(src, TranspileConfig::default()).unwrap();
    assert!(cpp.contains("auto a = 0xFF;"));
    assert!(cpp.contains("auto b = 10;"));
    assert!(cpp.contains("auto c = 077;"));
    assert!(cpp.contains("auto d = 42;"));
}

#[test]
fn newline_ends_statements() {
    let body = body_of("package main\nfunc f() {\nx := 1\ny := 2\n}\n");
    assert_eq!(body.len(), 2);
    assert!(matches!(body[0], Stmt::ShortVar { .. }));
    assert!(matches!(body[1], Stmt::ShortVar { .. }));
}

#[test]
fn newlines_inside_call_are_insignificant() {
    let body = body_of("package main\nfunc f() {\nf(\n  a,\n  b,\n)\n}\n");
    assert_eq!(body.len(), 1);
    match &body[0] {
        Stmt::Expr(Expr::Call(_, args)) => assert_eq!(args.len(), 2),
        other => panic!("unexpected {:?}", other),
    }
}

#[test]
fn precedence_shapes_the_tree() {
    let body = body_of("package main\nfunc f() {\nx := 1 + 2 * 3\n}\n");
    match &body[0] {
        Stmt::ShortVar { value: Expr::Binary(_, _, rhs), .. } => {
            assert!(matches!(**rhs, Expr::Binary(..)));
        }
        other => panic!("unexpected {:?}", other),
    }
}

#[test]
fn go_statement_is_annotated() {
    let src = "package main\nfunc foo() {}\nfunc loop() {\n  go foo()\n}\n";
    let cpp = run(src, TranspileConfig::default()).unwrap();
    assert!(cpp.contains("`go` statement at main.go:4:3"));
    assert!(!cpp.contains("foo();\n}"));
}

#[test]
fn go_statement_without_annotation_fails() {
    let src = "package main\nfunc foo() {}\nfunc loop() {\n  go foo()\n}\n";
    let cfg = TranspileConfig { annotate_unsupported: false, ..TranspileConfig::default() };
    assert!(matches!(run(src, cfg), Err(tsukiError::Codegen(_))));
}

#[test]
fn defer_and_select_are_annotated() {
    let src = "package main\nfunc loop() {\n  defer f()\n  select {\n  case x := <-c:\n  }\n  c <- 1\n}\n";
    let cpp = run(src, TranspileConfig::default()).unwrap();
    assert!(cpp.contains("`defer` statement at main.go:3:3"));
    assert!(cpp.contains("`select` statement at main.go:4:3"));
    assert!(cpp.contains("channel send"));
}

#[test]
fn unknown_board_is_a_codegen_error() {
    let cfg = TranspileConfig { board: "not-a-board".into(), ..TranspileConfig::default() };
    match run(BLINK, cfg) {
        Err(tsukiError::Codegen(msg)) => {
            assert!(msg.contains("not-a-board"));
            assert!(msg.contains("uno"));
            assert!(msg.contains("esp32"));
        }
        other => panic!("unexpected {:?}", other),
    }
}

#[test]
fn unknown_intrinsic_member() {
    let src = "package main\nfunc setup() { arduino.frobnicate(1) }\n";
    let cpp = run(src, TranspileConfig::default()).unwrap();
    assert!(cpp.contains("frobnicate(1)"));
    let cfg = TranspileConfig { passthrough_unknown: false, ..TranspileConfig::default() };
    match run(src, cfg) {
        Err(tsukiError::Codegen(msg)) => assert!(msg.contains("frobnicate")),
        other => panic!("unexpected {:?}", other),
    }
}

#[test]
fn bit_clear_expands() {
    let src = "package main\nfunc f() {\nx := a &^ b\nx &^= c\n}\n";
    let cpp = run(src, TranspileConfig::default()).unwrap();
    assert!(cpp.contains("auto x = a & (~b);"));
    assert!(cpp.contains("x &= ~(c);"));
}

#[test]
fn functions_are_declared_before_use() {
    let src = "package main\nfunc setup() { blink(3) }\nfunc blink(n int) int { return n * 2 }\n";
    let cpp = run(src, TranspileConfig::default()).unwrap();
    let decl = cpp.find("int blink(int n);").unwrap();
    let def = cpp.find("int blink(int n) {").unwrap();
    assert!(decl < def);
    assert!(cpp.contains("return n * 2;"));
}

#[test]
fn string_representation_follows_config() {
    let src = "package main\nfunc greet(s string) {\n  show(\"hi\\n\")\n}\n";
    let cpp = run(src, TranspileConfig::default()).unwrap();
    assert!(cpp.contains("void greet(String s)"));
    assert!(cpp.contains("show(String(\"hi\\n\"))"));
    let cfg = TranspileConfig { arduino_string: false, ..TranspileConfig::default() };
    let cpp = run(src, cfg).unwrap();
    assert!(cpp.contains("void greet(const char* s)"));
    assert!(cpp.contains("show(\"hi\\n\")"));
}

#[test]
fn control_flow() {
    let src = "package main\nfunc loop() {\n  for i := 0; i < 3; i++ {\n    if i == 1 {\n      continue\n    } else if i == 2 {\n      break\n    } else {\n      x = i\n    }\n  }\n  for {\n  }\n  switch x {\n  case 1, 2:\n    y = 1\n    fallthrough\n  default:\n    y = 2\n  }\n}\n";
    let cpp = run(src, TranspileConfig::default()).unwrap();
    assert!(cpp.contains("for (auto i = 0; i < 3; i++) {"));
    assert!(cpp.contains("if (i == 1) {"));
    assert!(cpp.contains("} else if (i == 2) {"));
    assert!(cpp.contains("while (true) {"));
    assert!(cpp.contains("switch (x) {"));
    assert!(cpp.contains("case 1:"));
    assert!(cpp.contains("case 2:"));
    assert!(cpp.contains("default:"));
}

#[test]
fn source_map_markers() {
    let cfg = TranspileConfig { emit_source_map: true, ..TranspileConfig::default() };
    let cpp = run(BLINK, cfg).unwrap();
    assert!(cpp.contains("#line 3 \"main.go\"\nvoid setup()"));
    assert!(cpp.contains("#line 4 \"main.go\"\nvoid loop()"));
}

#[test]
fn parse_error_names_expected_and_found() {
    match run("package main\nfunc setup( {\n}\n", TranspileConfig::default()) {
        Err(tsukiError::Parse { msg, span }) => {
            assert!(msg.contains("expected"));
            assert!(msg.contains("`{`"));
            assert_eq!((span.line, span.col), (2, 13));
        }
        other => panic!("unexpected {:?}", other),
    }
    assert!(matches!(run("func f() {}", TranspileConfig::default()), Err(tsukiError::Parse { .. })));
}

#[test]
fn pretty_rendering() {
    let src = "package main\nx := 0xZZ\n";
    let e = run(src, TranspileConfig::default()).unwrap_err();
    let text = pretty_error(&e, src);
    assert_eq!(
        text,
        "error: [lex]   main.go:2:6  invalid hex literal `0xZZ`\n  --> main.go:2:6\n   |\n  2| x := 0xZZ\n   |      ^\n"
    );
    let e = tsukiError::codegen("boom".to_string());
    assert_eq!(pretty_error(&e, src), "[codegen] boom");
    assert_eq!(e.to_string(), "[codegen] boom");
}

#[test]
fn span_text() {
    assert_eq!(Span::new("a.go".to_string(), 3, 7, 20).to_string(), "a.go:3:7");
    assert_eq!(Span::new(String::new(), 3, 7, 20).to_string(), "3:7");
    let s = Span::synthetic();
    assert_eq!((s.line, s.col, s.offset), (0, 0, 0));
    assert!(s.file.is_empty());
}

#[test]
fn board_catalog() {
    let all = Board::catalog();
    assert_eq!(all[0].id, "uno");
    assert!(all.iter().any(|b| b.id == "esp32"));
    let uno = Board::lookup("uno").unwrap();
    assert_eq!(uno.fqbn, "arduino:avr:uno");
    assert!(Board::lookup("UNO").is_none());
}

#[test]
fn default_config() {
    let c = TranspileConfig::default();
    assert_eq!(c.board, "uno");
    assert_eq!(c.cpp_std, "c++11");
    assert!(c.arduino_string && c.annotate_unsupported && c.passthrough_unknown && !c.emit_source_map);
}

#[test]
fn flag_lookup() {
    let args: Vec<String> = ["prog", "in.go", "--board", "mega", "--board", "nano"].iter().map(|s| s.to_string()).collect();
    assert_eq!(godotino_core::flag_value(&args, "--board"), Some("mega".to_string()));
    assert_eq!(godotino_core::flag_value(&args, "--source-map"), None);
    let tail: Vec<String> = ["prog", "--board"].iter().map(|s| s.to_string()).collect();
    assert_eq!(godotino_core::flag_value(&tail, "--board"), None);
}

#[test]
fn board_listing() {
    let t = godotino_core::cli::boards_table();
    let lines: Vec<&str> = t.lines().collect();
    assert!(lines[0].starts_with("ID              NAME"));
    assert_eq!(lines[1], "-".repeat(85));
    assert_eq!(lines[2], format!("{:<15} {:<30} {:>5}K  {:>4}K  {}", "uno", "Arduino Uno", 32, 2, "arduino:avr:uno"));
    assert_eq!(lines.len(), 2 + Board::catalog().len());
}

#[test]
fn blink_translation_in_full() {
    let cpp = run(BLINK, TranspileConfig::default()).unwrap();
    assert_eq!(
        cpp,
        "// Generated for Arduino Uno (arduino:avr:uno), c++11\n#include <Arduino.h>\n\nvoid setup() {\n    pinMode(13, OUTPUT);\n}\n\nvoid loop() {\n    digitalWrite(13, HIGH);\n    delay(500);\n}\n\n"
    );
}

#[test]
fn literals_render_canonically() {
    let src = "package main\nfunc f() {\nx := 'a'\ny := '\\n'\nz := 1_000.5\nw := -5\nv := true\nu := nil\n}\n";
    let cpp = run(src, TranspileConfig::default()).unwrap();
    assert!(cpp.contains("auto x = 'a';"));
    assert!(cpp.contains("auto y = '\\n';"));
    assert!(cpp.contains("auto z = 1000.5;"));
    assert!(cpp.contains("auto w = -5;"));
    assert!(cpp.contains("auto v = true;"));
    assert!(cpp.contains("auto u = nullptr;"));
}

#[test]
fn operators_keep_go_grouping_in_cpp() {
    let src = "package main\nfunc f() {\nx := a & b == c\ny := ^a\n}\n";
    let cpp = run(src, TranspileConfig::default()).unwrap();
    assert!(cpp.contains("auto x = (a & b) == c;"));
    assert!(cpp.contains("auto y = ~a;"));
}

#[test]
fn tagless_switch_selects_first_true_case() {
    let src = "package main\nfunc f() {\nswitch {\ncase x > 1, y:\n  a = 1\ndefault:\n  a = 2\n}\n}\n";
    let cpp = run(src, TranspileConfig::default()).unwrap();
    assert!(cpp.contains("switch ((x > 1) || (y) ? 0 : 1) {"));
    assert!(cpp.contains("case 0:"));
    assert!(cpp.contains("case 1:"));
}

#[test]
fn lex_error_comes_before_board_lookup() {
    let cfg = TranspileConfig { board: "not-a-board".into(), ..TranspileConfig::default() };
    let src = "package main\nfunc setup() { x := 0xGG }";
    match run(src, cfg) {
        Err(tsukiError::Lex { span, .. }) => assert_eq!((span.line, span.col), (2, 21)),
        other => panic!("unexpected {:?}", other),
    }
}

#[test]
fn raw_text_is_the_source_slice() {
    let toks = Lexer::new("s := \"a\\tb\" + '\\n'", "t.go".to_string()).tokenize().unwrap();
    assert_eq!(toks[2].raw, "\"a\\tb\"");
    assert_eq!(toks[4].raw, "'\\n'");
}

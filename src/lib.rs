//! A transpiler from a restricted, Go-like language to Arduino C++: a lexer with
//! Go-style line-break handling, a precedence-climbing parser, and a generator that
//! rewrites calls into the intrinsic `arduino` package and annotates or refuses
//! constructs that have no single-threaded equivalent.
use vstd::prelude::*;

pub mod cli;
pub mod error;
pub mod laws;
pub mod lexer;
pub mod parser;
pub mod runtime;
pub mod text;
pub mod transpiler;

pub use error::{tsukiError, Span};
pub use cli::flag_value;
pub use runtime::Board;
pub use transpiler::TranspileConfig;

use lexer::{error_start, error_text, is_span_at, lexes};
use transpiler::{board_known, codegen_message, generated_text, program_ok, unknown_board_text};

verus! {

/// Source text in, C++ text out, for one configuration.
pub struct Pipeline {
    gen: transpiler::Transpiler,
}

impl Pipeline {
    pub closed spec fn config(&self) -> TranspileConfig {
        self.gen.config()
    }

    pub fn new(cfg: TranspileConfig) -> (r: Pipeline)
        ensures
            r.config() == cfg,
    {
        Pipeline { gen: transpiler::Transpiler::new(cfg) }
    }

    /// Lexes, parses and generates, in that order, stopping at the first diagnostic; the
    /// board id is resolved by the generator.
    pub fn run(&self, source: &str, filename: &str) -> (r: Result<String, tsukiError>)
        requires
            source@.len() < u32::MAX,
        ensures
            r matches Err(e) ==> e is Lex || e is Parse || e is Codegen,
            !lexes(source@) ==> (r matches Err(e) && e is Lex && is_span_at(
                e->Lex_span,
                filename@,
                source@,
                error_start(source@, 0),
            ) && e->Lex_msg@ == error_text(source@, 0)),
            r matches Err(e) ==> (e is Lex <==> !lexes(source@)),
            r matches Err(e) ==> (e is Codegen ==> codegen_message(e->Codegen_0@) || (!board_known(
                self.config().board@,
            ) && e->Codegen_0@ == unknown_board_text(self.config().board@))),
            r matches Ok(t) ==> lexes(source@) && exists|p: parser::ast::Program|
                program_ok(p, self.config()) && t@ == #[trigger] generated_text(p, self.config()),
            !board_known(self.config().board@) ==> (r matches Err(e) && (e is Codegen ==> e->Codegen_0@
                == unknown_board_text(self.config().board@))),
    {
        let file = text::string_of(&text::chars_of(filename));
        let mut lx = lexer::Lexer::new(source, file);
        let tokens = match lx.tokenize() {
            Ok(ts) => ts,
            Err(e) => {
                return Err(e);
            },
        };
        let prog = match parser::Parser::new(tokens).parse_program() {
            Ok(p) => p,
            Err(e) => {
                return Err(e);
            },
        };
        let r = self.gen.generate(&prog);
        proof {
            if r is Ok {
                assert(program_ok(prog, self.config()) && r->Ok_0@ == generated_text(prog, self.config()));
            }
        }
        r
    }
}

/// A diagnostic rendered with its source line and a caret under the offending column.
pub fn pretty_error(err: &tsukiError, source: &str) -> (r: String)
    ensures
        r@ == error::pretty_text(*err, source@),
{
    err.pretty(source)
}

} // verus!

//! The REPL's commands (lines starting with `:`) and the checks that decide
//! how an input line is handled.

use vstd::prelude::*;
use crate::syntax::ast::Pattern;
use crate::syntax::lexer::{Class, in_class_exec, initial_state, is_white_space, lex_from, utf8_len};
use crate::syntax::parser::{ParseErr, Parser, parse_error_text};
use crate::syntax::span::Spanned;
use crate::syntax::token::{Tok, chars_of};
use crate::text::{push_char, push_str};
use crate::types::error::{TypeError, error_message};
use crate::types::infer::TypeChecker;
use crate::types::model::TypeV;
use crate::types::repr::{Type, con0};

verus! {

// ========== Words ==========

/// The words of a text: its maximal runs of characters that are not white space.
pub open spec fn words(s: Seq<char>) -> Seq<Seq<char>>
    decreases s.len(),
{
    if s.len() == 0 {
        Seq::empty()
    } else {
        let ws = words(s.drop_last());
        let c = s.last();
        if is_white_space(c) {
            ws
        } else if s.len() >= 2 && !is_white_space(s[s.len() - 2]) {
            // the last word goes on
            ws.update(ws.len() - 1, ws.last().push(c))
        } else {
            ws.push(seq![c])
        }
    }
}

/// A text that ends inside a word has at least one word.
proof fn lemma_words_nonempty(s: Seq<char>)
    requires
        s.len() > 0,
        !is_white_space(s.last()),
    ensures
        words(s).len() > 0,
    decreases s.len(),
{
    if s.len() >= 2 && !is_white_space(s[s.len() - 2]) {
        let d = s.drop_last();
        assert(d.last() == s[s.len() - 2]);
        lemma_words_nonempty(d);
    }
}

/// Words joined by single spaces.
pub open spec fn join_words(ws: Seq<Seq<char>>) -> Seq<char>
    decreases ws.len(),
{
    if ws.len() == 0 {
        Seq::empty()
    } else if ws.len() == 1 {
        ws[0]
    } else {
        join_words(ws.drop_last()) + " "@ + ws.last()
    }
}

/// The words of a text, split at white space.
pub fn split_words(text: &str) -> (r: Vec<String>)
    ensures
        r@.map_values(|w: String| w@) == words(text@),
{
    let cs = chars_of(text);
    let mut out: Vec<String> = Vec::new();
    let mut in_word = false;
    let mut i: usize = 0;
    while i < cs.len()
        invariant
            i <= cs@.len(),
            cs@ == text@,
            out@.map_values(|w: String| w@) == words(cs@.take(i as int)),
            in_word == (i > 0 && !is_white_space(cs@[i - 1])),
        decreases cs.len() - i,
    {
        let c = cs[i];
        let ghost t = cs@.take(i + 1);
        assert(t.drop_last() =~= cs@.take(i as int));
        assert(t.last() == c);
        let ghost before = out@;
        if in_class_exec(Class::White, c) {
            in_word = false;
        } else if in_word {
            proof {
                assert(t[t.len() - 2] == cs@[i - 1]);
                lemma_words_nonempty(cs@.take(i as int));
                assert(cs@.take(i as int).last() == cs@[i - 1]);
            }
            let last = out.len() - 1;
            let mut w = out[last].clone();
            push_char(&mut w, c);
            let ghost wv = w@;
            out.set(last, w);
            proof {
                assert(out@.map_values(|w: String| w@) =~= before.map_values(|w: String| w@).update(
                    last as int,
                    wv,
                ));
            }
        } else {
            let mut w = String::new();
            push_char(&mut w, c);
            out.push(w);
            proof {
                if i >= 1 {
                    assert(t[t.len() - 2] == cs@[i - 1]);
                }
                assert(w@ =~= seq![c]);
                assert(out@.map_values(|w: String| w@) =~= before.map_values(|w: String| w@).push(seq![c]));
            }
            in_word = true;
        }
        i += 1;
    }
    assert(cs@.take(i as int) =~= cs@);
    out
}

// ========== Commands ==========

/// A REPL command, as read from a line starting with `:`.
#[derive(Debug)]
pub enum ReplCommand {
    /// `:quit` or `:q`
    Quit,
    /// `:help` or `:h`
    Help,
    /// `:type` or `:t` followed by an expression, its words joined by spaces
    TypeOf(String),
    /// `:type` or `:t` with nothing after it
    TypeUsage,
    /// `:clear`
    Clear,
    /// Any other first word (empty where the line has none)
    Unknown(String),
}

/// A command as a value.
pub enum CommandV {
    Quit,
    Help,
    TypeOf(Seq<char>),
    TypeUsage,
    Clear,
    Unknown(Seq<char>),
}

impl View for ReplCommand {
    type V = CommandV;

    open spec fn view(&self) -> CommandV {
        match self {
            ReplCommand::Quit => CommandV::Quit,
            ReplCommand::Help => CommandV::Help,
            ReplCommand::TypeOf(e) => CommandV::TypeOf(e@),
            ReplCommand::TypeUsage => CommandV::TypeUsage,
            ReplCommand::Clear => CommandV::Clear,
            ReplCommand::Unknown(c) => CommandV::Unknown(c@),
        }
    }
}

/// The command that a line gives: decided by its first word.
pub open spec fn command_of(line: Seq<char>) -> CommandV {
    let ws = words(line);
    let first = if ws.len() > 0 { ws[0] } else { Seq::empty() };
    if first == ":quit"@ || first == ":q"@ {
        CommandV::Quit
    } else if first == ":help"@ || first == ":h"@ {
        CommandV::Help
    } else if first == ":type"@ || first == ":t"@ {
        if ws.len() < 2 { CommandV::TypeUsage } else { CommandV::TypeOf(join_words(ws.drop_first())) }
    } else if first == ":clear"@ {
        CommandV::Clear
    } else {
        CommandV::Unknown(first)
    }
}

fn same_text(a: &String, text: &str) -> (b: bool)
    ensures
        b == (a@ == text@),
{
    let t = text.to_owned();
    *a == t
}

/// Read a REPL command from a line.
pub fn parse_command(line: &str) -> (c: ReplCommand)
    ensures
        c@ == command_of(line@),
{
    let ws = split_words(line);
    let ghost wv = ws@.map_values(|w: String| w@);
    assert(wv == words(line@));
    proof {
        reveal_strlit(":quit");
        reveal_strlit(":q");
        reveal_strlit(":help");
        reveal_strlit(":h");
        reveal_strlit(":type");
        reveal_strlit(":t");
        reveal_strlit(":clear");
    }
    if ws.len() == 0 {
        let empty = String::new();
        assert(empty@ =~= Seq::<char>::empty());
        return ReplCommand::Unknown(empty);
    }
    assert(wv[0] == ws@[0]@);
    let first = &ws[0];
    if same_text(first, ":quit") || same_text(first, ":q") {
        ReplCommand::Quit
    } else if same_text(first, ":help") || same_text(first, ":h") {
        ReplCommand::Help
    } else if same_text(first, ":type") || same_text(first, ":t") {
        if ws.len() < 2 {
            ReplCommand::TypeUsage
        } else {
            let mut e = ws[1].clone();
            let mut k: usize = 2;
            proof {
                assert(wv.drop_first().take(1) =~= seq![wv[1]]);
                assert(join_words(wv.drop_first().take(1)) == wv[1]);
            }
            while k < ws.len()
                invariant
                    2 <= k <= ws@.len(),
                    wv == ws@.map_values(|w: String| w@),
                    wv.len() == ws@.len(),
                    e@ == join_words(wv.drop_first().take(k - 1)),
                decreases ws.len() - k,
            {
                push_str(&mut e, " ");
                push_str(&mut e, ws[k].as_str());
                proof {
                    let t = wv.drop_first().take(k as int);
                    assert(t.drop_last() =~= wv.drop_first().take(k - 1));
                    assert(t.last() == ws@[k as int]@);
                }
                k += 1;
            }
            assert(wv.drop_first().take(k - 1) =~= wv.drop_first());
            ReplCommand::TypeOf(e)
        }
    } else if same_text(first, ":clear") {
        ReplCommand::Clear
    } else {
        ReplCommand::Unknown(first.clone())
    }
}

/// The REPL's help text.
pub open spec fn help_text_v() -> Seq<char> {
    "Neap REPL Commands:\n"@
        + "  :quit, :q     Exit the REPL\n"@
        + "  :help, :h     Show this help\n"@
        + "  :type, :t     Show type of expression without evaluating\n"@
        + "  :clear        Clear all definitions\n"@
        + "\n"@
        + "Enter expressions to evaluate, or declarations to define:\n"@
        + "  1 + 2              Expression (prints result)\n"@
        + "  let x = 42         Value declaration\n"@
        + "  fun double n = n * 2   Function declaration\n"@
}

/// Get the help text.
pub fn help_text() -> (s: String)
    ensures
        s@ == help_text_v(),
{
    let mut help = String::new();
    push_str(&mut help, "Neap REPL Commands:\n");
    push_str(&mut help, "  :quit, :q     Exit the REPL\n");
    push_str(&mut help, "  :help, :h     Show this help\n");
    push_str(&mut help, "  :type, :t     Show type of expression without evaluating\n");
    push_str(&mut help, "  :clear        Clear all definitions\n");
    push_str(&mut help, "\n");
    push_str(&mut help, "Enter expressions to evaluate, or declarations to define:\n");
    push_str(&mut help, "  1 + 2              Expression (prints result)\n");
    push_str(&mut help, "  let x = 42         Value declaration\n");
    push_str(&mut help, "  fun double n = n * 2   Function declaration\n");
    assert(help@ =~= help_text_v());
    help
}

// ========== Deciding on an input ==========

/// Whether `t` occurs in `s`.
pub open spec fn occurs_in(t: Seq<char>, s: Seq<char>) -> bool {
    exists|i: int| 0 <= i && i + t.len() <= s.len() && #[trigger] s.subrange(i, i + t.len()) == t
}

fn text_occurs(t: &Vec<char>, s: &Vec<char>) -> (b: bool)
    ensures
        b == occurs_in(t@, s@),
{
    if t.len() > s.len() {
        return false;
    }
    if t.len() == 0 {
        assert(s@.subrange(0int, 0int + t@.len()) =~= t@);
        return true;
    }
    let mut i: usize = 0;
    let slen = s.len();
    let last = slen - t.len();
    while i <= last
        invariant
            0 < t@.len() <= s@.len(),
            slen == s@.len(),
            last == s@.len() - t@.len(),
            forall|j: int| 0 <= j < i ==> #[trigger] s@.subrange(j, j + t@.len()) != t@,
        decreases last + 1 - i,
    {
        let mut k: usize = 0;
        let mut same = true;
        while k < t.len()
            invariant
                i <= last,
                slen == s@.len(),
                t@.len() <= s@.len(),
                last == s@.len() - t@.len(),
                k <= t@.len(),
                same == (forall|m: int| 0 <= m < k ==> s@[i + m] == t@[m]),
            decreases t.len() - k,
        {
            assert(i + k < s@.len());
            if s[i + k] != t[k] {
                same = false;
            }
            k += 1;
        }
        if same {
            assert(s@.subrange(i as int, i + t@.len()) =~= t@);
            return true;
        }
        assert(s@.subrange(i as int, i + t@.len())[(choose|m: int| 0 <= m < t@.len() && s@[i + m] != t@[m])]
            != t@[(choose|m: int| 0 <= m < t@.len() && s@[i + m] != t@[m])]);
        assert(i < s@.len());
        i += 1;
    }
    assert forall|j: int| 0 <= j && j + t@.len() <= s@.len() implies #[trigger] s@.subrange(j, j + t@.len()) != t@ by {
        assert(j <= last);
    }
    false
}

/// An input looks unfinished where its parse error speaks of the end of input
/// or of something expected, or where it has `let` without `in`.
pub open spec fn incomplete(input: Seq<char>, error: Seq<char>) -> bool {
    occurs_in("unexpected end of input"@, error)
        || occurs_in("expected"@, error)
        || (occurs_in("let"@, input) && !occurs_in("in"@, input))
}

/// Check if an error message suggests incomplete input.
pub fn is_incomplete_input(input: &str, error: &str) -> (b: bool)
    ensures
        b == incomplete(input@, error@),
{
    let i = chars_of(input);
    let e = chars_of(error);
    text_occurs(&chars_of("unexpected end of input"), &e)
        || text_occurs(&chars_of("expected"), &e)
        || (text_occurs(&chars_of("let"), &i) && !text_occurs(&chars_of("in"), &i))
}

/// Get the name from a pattern (for simple variable patterns).
pub fn pattern_name(pattern: &Spanned<Pattern>) -> (r: Result<String, String>)
    ensures
        match pattern.value {
            Pattern::Var(n) => r matches Ok(s) && s@ == n@,
            _ => r matches Err(m) && m@ == "Complex patterns not supported in REPL declarations"@,
        },
{
    match &pattern.value {
        Pattern::Var(name) => Ok(name.clone()),
        _ => Err("Complex patterns not supported in REPL declarations".to_owned()),
    }
}

/// The type of a source that is a single literal token (an integer, `true`, `false` or a
/// character) and nothing more.
pub open spec fn literal_source_type(src: Seq<char>) -> Option<TypeV> {
    match lex_from(src, initial_state()) {
        Ok(ts) => if ts.len() == 2 && ts[1].0 == Tok::Eof {
            match ts[0].0 {
                Tok::Int(_) => Some(con0("int"@)),
                Tok::True | Tok::False => Some(con0("bool"@)),
                Tok::Char(_) => Some(con0("char"@)),
                _ => None,
            }
        } else {
            None
        },
        Err(_) => None,
    }
}

/// Get the type of an expression without evaluating it. A failure is reported
/// as a parse error or a type error, with the error's message.
pub fn type_of(checker: &mut TypeChecker, expr_str: &str) -> (r: Result<Type, String>)
    requires
        old(checker).wf(),
        utf8_len(expr_str@) <= usize::MAX,
    ensures
        final(checker).wf(),
        r matches Err(m) ==> (exists|e: ParseErr| m@ == "Parse error: "@ + parse_error_text(e))
            || (exists|e: TypeError| m@ == "Type error: "@ + error_message(e)),
        lex_from(expr_str@, initial_state()) is Err ==> (r matches Err(m)
            && m@ == "Parse error: "@ + parse_error_text(ParseErr::Lexer(lex_from(expr_str@, initial_state())->Err_0))),
        literal_source_type(expr_str@) is Some ==> (r matches Ok(t) && t@ == literal_source_type(expr_str@)->0),
{
    let mut parser = match Parser::new(expr_str) {
        Ok(p) => p,
        Err(e) => {
            let mut m = "Parse error: ".to_owned();
            push_str(&mut m, e.to_string().as_str());
            return Err(m);
        },
    };
    let expr = match parser.parse_expr() {
        Ok(e) => e,
        Err(e) => {
            let mut m = "Parse error: ".to_owned();
            push_str(&mut m, e.to_string().as_str());
            return Err(m);
        },
    };
    match checker.infer_expr(&expr) {
        Ok(t) => Ok(t),
        Err(e) => {
            let mut m = "Type error: ".to_owned();
            push_str(&mut m, e.to_string().as_str());
            Err(m)
        },
    }
}

} // verus!

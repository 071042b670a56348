//! Command string parsing: a line becomes a command name and its arguments.
//!
//! Tokens are separated by whitespace. A token may be quoted with `"` or `'`;
//! inside quotes whitespace is kept, the other quote character is ordinary,
//! and a backslash starts an escape (`\n`, `\t`, `\r`, `\\`, `\"`, `\'`; any
//! other character after a backslash is kept together with the backslash).

use vstd::prelude::*;
use vstd::string::StringExecFns;
use crate::error::CommandError;
use crate::text::{is_white_space, is_whitespace_char, push_char, trim, chars_of, trim_chars};

verus! {

/// A quote character: `"` or `'`.
pub open spec fn is_quote(c: char) -> bool {
    c == '"' || c == '\''
}

/// What an escape sequence `\c` inside quotes contributes to the token.
pub open spec fn unescape(c: char) -> Seq<char> {
    if c == 'n' {
        seq!['\n']
    } else if c == 't' {
        seq!['\t']
    } else if c == 'r' {
        seq!['\r']
    } else if c == '\\' || c == '"' || c == '\'' {
        seq![c]
    } else {
        seq!['\\', c]
    }
}

/// The state of the tokenizer between two characters.
pub struct Scan {
    /// The tokens completed so far.
    pub tokens: Seq<Seq<char>>,
    /// The token being built.
    pub current: Seq<char>,
    /// Whether the scanner is inside a quoted part.
    pub in_quotes: bool,
    /// The quote character that opened the quoted part (`'\0'` outside quotes).
    pub quote: char,
}

/// The state before the first character.
pub open spec fn scan_start() -> Scan {
    Scan { tokens: seq![], current: seq![], in_quotes: false, quote: '\0' }
}

/// The state after scanning `s[i..]` from state `st`.
pub open spec fn scan_from(s: Seq<char>, i: int, st: Scan) -> Scan
    decreases s.len() - i,
{
    if i < 0 || i >= s.len() {
        st
    } else {
        let c = s[i];
        if is_quote(c) && !st.in_quotes {
            scan_from(s, i + 1, Scan { in_quotes: true, quote: c, ..st })
        } else if is_quote(c) && st.in_quotes && c == st.quote {
            scan_from(s, i + 1, Scan { in_quotes: false, quote: '\0', ..st })
        } else if c == '\\' && st.in_quotes {
            if i + 1 < s.len() {
                scan_from(s, i + 2, Scan { current: st.current + unescape(s[i + 1]), ..st })
            } else {
                scan_from(s, i + 1, st)
            }
        } else if is_white_space(c) && !st.in_quotes {
            if st.current.len() > 0 {
                scan_from(s, i + 1, Scan { tokens: st.tokens.push(st.current), current: seq![], ..st })
            } else {
                scan_from(s, i + 1, st)
            }
        } else {
            scan_from(s, i + 1, Scan { current: st.current.push(c), ..st })
        }
    }
}

/// The tokens of `s`, or the quote character left open at its end.
pub open spec fn tokens_of(s: Seq<char>) -> Result<Seq<Seq<char>>, char> {
    let st = scan_from(s, 0, scan_start());
    if st.in_quotes {
        Err(st.quote)
    } else if st.current.len() > 0 {
        Ok(st.tokens.push(st.current))
    } else {
        Ok(st.tokens)
    }
}

/// What `parse_command_string` gives for `input`: the command name and the
/// arguments, or the message of the parse error.
pub open spec fn parse_spec(input: Seq<char>) -> Result<(Seq<char>, Seq<Seq<char>>), Seq<char>> {
    let t = trim(input);
    if t.len() == 0 {
        Err("Empty command string"@)
    } else {
        match tokens_of(t) {
            Err(q) => Err("Unclosed quote character: "@.push(q)),
            Ok(tokens) => if tokens.len() == 0 {
                Err("No command name found"@)
            } else {
                Ok((tokens[0], tokens.drop_first()))
            },
        }
    }
}

/// The views of a vector of strings.
pub open spec fn views(v: Seq<String>) -> Seq<Seq<char>> {
    v.map_values(|t: String| t@)
}

/// Splits the characters `s` into tokens, handling quotes and escapes.
fn tokenize(s: &Vec<char>) -> (r: Result<Vec<String>, CommandError>)
    ensures
        match tokens_of(s@) {
            Ok(tokens) => r matches Ok(v) && views(v@) == tokens,
            Err(q) => r matches Err(CommandError::ParseError(m)) && m@ == "Unclosed quote character: "@.push(q),
        },
{
    let n = s.len();
    let mut tokens: Vec<String> = Vec::new();
    let mut current = String::new();
    let mut in_quotes = false;
    let mut quote_char = '\0';
    let mut i: usize = 0;
    assert(views(tokens@) =~= Seq::<Seq<char>>::empty());
    while i < n
        invariant
            n == s@.len(),
            i <= n,
            scan_from(s@, i as int, Scan { tokens: views(tokens@), current: current@, in_quotes, quote: quote_char })
                == scan_from(s@, 0, scan_start()),
        decreases n - i,
    {
        let ghost st = Scan { tokens: views(tokens@), current: current@, in_quotes, quote: quote_char };
        let ch = s[i];
        if (ch == '"' || ch == '\'') && !in_quotes {
            in_quotes = true;
            quote_char = ch;
            i = i + 1;
        } else if (ch == '"' || ch == '\'') && in_quotes && ch == quote_char {
            in_quotes = false;
            quote_char = '\0';
            i = i + 1;
        } else if ch == '\\' && in_quotes {
            if i + 1 < n {
                let next_ch = s[i + 1];
                if next_ch == 'n' {
                    push_char(&mut current, '\n');
                } else if next_ch == 't' {
                    push_char(&mut current, '\t');
                } else if next_ch == 'r' {
                    push_char(&mut current, '\r');
                } else if next_ch == '\\' || next_ch == '"' || next_ch == '\'' {
                    push_char(&mut current, next_ch);
                } else {
                    push_char(&mut current, '\\');
                    push_char(&mut current, next_ch);
                }
                assert(current@ =~= st.current + unescape(next_ch));
                i = i + 2;
            } else {
                i = i + 1;
            }
        } else if is_whitespace_char(ch) && !in_quotes {
            if !current.as_str().is_empty() {
                tokens.push(current.clone());
                current = String::new();
                assert(views(tokens@) =~= st.tokens.push(st.current));
            }
            i = i + 1;
        } else {
            push_char(&mut current, ch);
            i = i + 1;
        }
    }
    if in_quotes {
        let mut msg = String::from_str("Unclosed quote character: ");
        push_char(&mut msg, quote_char);
        return Err(CommandError::ParseError(msg));
    }
    if !current.as_str().is_empty() {
        let ghost before = views(tokens@);
        tokens.push(current);
        assert(views(tokens@) =~= before.push(current@));
    }
    Ok(tokens)
}

/// Parses a command string into a command name and arguments.
///
/// The input is trimmed and then tokenized: tokens are separated by
/// whitespace, and quoted strings (single or double quotes) are single
/// arguments that can contain spaces. The first token is the command name.
pub fn parse_command_string(input: &str) -> (r: Result<(String, Vec<String>), CommandError>)
    ensures
        match parse_spec(input@) {
            Ok((name, args)) => r matches Ok((n, a)) && n@ == name && views(a@) == args,
            Err(msg) => r matches Err(CommandError::ParseError(m)) && m@ == msg,
        },
{
    let all = chars_of(input);
    let chars = trim_chars(&all);
    if chars.len() == 0 {
        return Err(CommandError::ParseError(String::from_str("Empty command string")));
    }
    let tokens = match tokenize(&chars) {
        Ok(t) => t,
        Err(e) => return Err(e),
    };
    if tokens.len() == 0 {
        return Err(CommandError::ParseError(String::from_str("No command name found")));
    }
    let command_name = tokens[0].clone();
    let mut args: Vec<String> = Vec::new();
    let mut k: usize = 1;
    while k < tokens.len()
        invariant
            1 <= k <= tokens@.len(),
            views(args@) == views(tokens@).subrange(1, k as int),
        decreases tokens@.len() - k,
    {
        let ghost before = args@;
        args.push(tokens[k].clone());
        assert(args@ =~= before.push(tokens@[k as int]));
        assert(views(args@) =~= views(before).push(tokens@[k as int]@));
        k = k + 1;
        assert(views(args@) =~= views(tokens@).subrange(1, k as int));
    }
    assert(views(tokens@).drop_first() =~= views(tokens@).subrange(1, tokens@.len() as int));
    Ok((command_name, args))
}

} // verus!

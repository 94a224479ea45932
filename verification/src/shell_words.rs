//! A model of how a POSIX shell splits one simple command line into words.
//!
//! The model covers blanks, single quotes and backslash escapes. Any other
//! unquoted character that the shell would treat specially (expansions,
//! operators, globbing) makes the line fall outside the model. The one
//! exception is a `~` at the start of a word: it is kept, and the shell
//! performs tilde expansion on it afterwards.

use vstd::prelude::*;
use crate::text::join_with;

verus! {

/// Where the reader stands inside the current word.
pub enum LexMode {
    /// outside quotes
    Plain,
    /// inside a single-quoted span
    Single,
    /// right after an unquoted backslash
    Escape,
    /// a character the model does not cover was read
    Unsupported,
}

/// The reader's state: the finished words, the word being read (if one has
/// started) and the mode.
pub struct LexState {
    pub words: Seq<Seq<char>>,
    pub cur: Option<Seq<char>>,
    pub mode: LexMode,
}

/// The state before the first character.
pub open spec fn lex_start() -> LexState {
    LexState { words: Seq::empty(), cur: None, mode: LexMode::Plain }
}

/// The word being read, or the empty word when none has started.
pub open spec fn cur_or_empty(cur: Option<Seq<char>>) -> Seq<char> {
    match cur {
        Some(w) => w,
        None => Seq::empty(),
    }
}

/// Unquoted characters that carry no meaning for the shell.
pub open spec fn is_inert(c: char) -> bool {
    ||| ('a' <= c && c <= 'z')
    ||| ('A' <= c && c <= 'Z')
    ||| ('0' <= c && c <= '9')
    ||| c == '_' || c == '-' || c == '.' || c == '/' || c == ',' || c == ':'
    ||| c == '+' || c == '@' || c == '%'
}

/// Reads one character.
pub open spec fn lex_step(st: LexState, c: char) -> LexState {
    match st.mode {
        LexMode::Unsupported => st,
        LexMode::Single => if c == '\'' {
            LexState { mode: LexMode::Plain, ..st }
        } else {
            LexState { cur: Some(cur_or_empty(st.cur).push(c)), ..st }
        },
        LexMode::Escape => if c == '\n' {
            LexState { mode: LexMode::Plain, ..st }
        } else {
            LexState { cur: Some(cur_or_empty(st.cur).push(c)), mode: LexMode::Plain, ..st }
        },
        LexMode::Plain => if c == ' ' || c == '\t' {
            match st.cur {
                Some(w) => LexState { words: st.words.push(w), cur: None, mode: LexMode::Plain },
                None => st,
            }
        } else if c == '\'' {
            LexState { cur: Some(cur_or_empty(st.cur)), mode: LexMode::Single, ..st }
        } else if c == '\\' {
            LexState { mode: LexMode::Escape, ..st }
        } else if is_inert(c) || (c == '~' && st.cur is None) {
            LexState { cur: Some(cur_or_empty(st.cur).push(c)), ..st }
        } else {
            LexState { mode: LexMode::Unsupported, ..st }
        },
    }
}

/// Reads every character of `s`, starting in state `st`.
pub open spec fn lex_run(s: Seq<char>, st: LexState) -> LexState
    decreases s.len(),
{
    if s.len() == 0 {
        st
    } else {
        lex_step(lex_run(s.drop_last(), st), s.last())
    }
}

/// The words of the command line `s`, after quote removal; `None` when the
/// line uses something outside the model or ends inside a quote or escape.
pub open spec fn shell_words(s: Seq<char>) -> Option<Seq<Seq<char>>> {
    let st = lex_run(s, lex_start());
    match st.mode {
        LexMode::Plain => Some(
            match st.cur {
                Some(w) => st.words.push(w),
                None => st.words,
            },
        ),
        _ => None,
    }
}

/// Reading `a + b` is reading `a`, then `b`.
pub proof fn lemma_lex_run_concat(a: Seq<char>, b: Seq<char>, st: LexState)
    ensures
        lex_run(a + b, st) == lex_run(b, lex_run(a, st)),
    decreases b.len(),
{
    if b.len() == 0 {
        assert(a + b =~= a);
    } else {
        assert((a + b).drop_last() =~= a + b.drop_last());
        assert((a + b).last() == b.last());
        lemma_lex_run_concat(a, b.drop_last(), st);
    }
}

/// How one character is written inside a single-quoted word: a quote
/// closes the span, is escaped, and reopens it.
pub open spec fn quote_piece(c: char) -> Seq<char> {
    if c == '\'' {
        seq!['\'', '\\', '\'', '\'']
    } else {
        seq![c]
    }
}

/// The characters of `s` as they stand between the outer quotes.
pub open spec fn quote_body(s: Seq<char>) -> Seq<char>
    decreases s.len(),
{
    if s.len() == 0 {
        Seq::empty()
    } else {
        quote_body(s.drop_last()) + quote_piece(s.last())
    }
}

/// `s` as one single-quoted shell word.
pub open spec fn quoted(s: Seq<char>) -> Seq<char> {
    seq!['\''] + quote_body(s) + seq!['\'']
}

/// Each of `args` quoted, in order.
pub open spec fn quote_all(args: Seq<Seq<char>>) -> Seq<Seq<char>> {
    args.map_values(|a: Seq<char>| quoted(a))
}

/// `args` quoted one by one and joined with single spaces.
pub open spec fn quoted_command_line(args: Seq<Seq<char>>) -> Seq<char> {
    join_with(quote_all(args), seq![' '])
}

/// The body of a quote-free span is the span itself, and the body of a
/// concatenation is the concatenation of the bodies.
pub proof fn lemma_quote_body_concat(a: Seq<char>, b: Seq<char>)
    ensures
        quote_body(a + b) == quote_body(a) + quote_body(b),
    decreases b.len(),
{
    if b.len() == 0 {
        assert(a + b =~= a);
        assert(quote_body(a) + quote_body(b) =~= quote_body(a));
    } else {
        assert((a + b).drop_last() =~= a + b.drop_last());
        lemma_quote_body_concat(a, b.drop_last());
        assert(quote_body(a + b) =~= quote_body(a) + quote_body(b.drop_last()) + quote_piece(b.last()));
    }
}

/// A span without quotes is written unchanged.
pub proof fn lemma_quote_body_plain(a: Seq<char>)
    requires
        forall|k: int| 0 <= k < a.len() ==> a[k] != '\'',
    ensures
        quote_body(a) == a,
    decreases a.len(),
{
    if a.len() > 0 {
        lemma_quote_body_plain(a.drop_last());
        assert(quote_body(a) =~= a.drop_last() + seq![a.last()]);
        assert(a.drop_last() + seq![a.last()] =~= a);
    }
}

/// One written character adds exactly that character to the word.
proof fn lemma_lex_quote_piece(c: char, words: Seq<Seq<char>>, x: Seq<char>)
    ensures
        lex_run(quote_piece(c), LexState { words, cur: Some(x), mode: LexMode::Single })
            == (LexState { words, cur: Some(x.push(c)), mode: LexMode::Single }),
{
    let st = LexState { words, cur: Some(x), mode: LexMode::Single };
    let p = quote_piece(c);
    if c == '\'' {
        assert(p.drop_last().drop_last().drop_last().drop_last() =~= Seq::<char>::empty());
        assert(p.drop_last().drop_last().drop_last().last() == '\'');
        assert(p.drop_last().drop_last().last() == '\\');
        assert(p.drop_last().last() == '\'');
        assert(p.last() == '\'');
        reveal_with_fuel(lex_run, 5);
    } else {
        assert(p.drop_last() =~= Seq::<char>::empty());
        reveal_with_fuel(lex_run, 2);
    }
}

/// Inside a single-quoted span, the body of `a` adds exactly `a` to the word.
pub proof fn lemma_lex_quote_body(a: Seq<char>, words: Seq<Seq<char>>, x: Seq<char>)
    ensures
        lex_run(quote_body(a), LexState { words, cur: Some(x), mode: LexMode::Single })
            == (LexState { words, cur: Some(x + a), mode: LexMode::Single }),
    decreases a.len(),
{
    let st = LexState { words, cur: Some(x), mode: LexMode::Single };
    if a.len() == 0 {
        assert(x + a =~= x);
    } else {
        lemma_lex_quote_body(a.drop_last(), words, x);
        lemma_lex_run_concat(quote_body(a.drop_last()), quote_piece(a.last()), st);
        lemma_lex_quote_piece(a.last(), words, x + a.drop_last());
        assert((x + a.drop_last()).push(a.last()) =~= x + a);
    }
}

/// Outside quotes, the quoted form of `a` adds exactly `a` to the word being
/// read (starting one if none has started).
pub proof fn lemma_lex_quoted(a: Seq<char>, words: Seq<Seq<char>>, cur: Option<Seq<char>>)
    ensures
        lex_run(quoted(a), LexState { words, cur, mode: LexMode::Plain })
            == (LexState { words, cur: Some(cur_or_empty(cur) + a), mode: LexMode::Plain }),
{
    let st = LexState { words, cur, mode: LexMode::Plain };
    let open_q = seq!['\''];
    let x = cur_or_empty(cur);
    assert(open_q.drop_last() =~= Seq::<char>::empty());
    assert(lex_run(open_q, st) == (LexState { words, cur: Some(x), mode: LexMode::Single })) by {
        reveal_with_fuel(lex_run, 2);
    }
    lemma_lex_run_concat(open_q, quote_body(a), st);
    lemma_lex_quote_body(a, words, x);
    lemma_lex_run_concat(open_q + quote_body(a), seq!['\''], st);
    assert(seq!['\''].drop_last() =~= Seq::<char>::empty());
    reveal_with_fuel(lex_run, 2);
}

/// A quoted string is read back by the shell as exactly one word, equal to the
/// string, whatever characters it holds.
pub proof fn law_quoted_is_one_word(s: Seq<char>)
    ensures
        shell_words(quoted(s)) == Some(seq![s]),
{
    lemma_lex_quoted(s, Seq::empty(), None);
    assert(Seq::<char>::empty() + s =~= s);
    assert(Seq::<Seq<char>>::empty().push(s) =~= seq![s]);
}

/// After a quoted command line, read after the finished words `words`, all
/// arguments but the last are finished words too and the last is being read.
proof fn lemma_lex_command_line(args: Seq<Seq<char>>, words: Seq<Seq<char>>)
    requires
        args.len() > 0,
    ensures
        lex_run(quoted_command_line(args), LexState { words, cur: None, mode: LexMode::Plain })
            == (LexState { words: words + args.drop_last(), cur: Some(args.last()), mode: LexMode::Plain }),
    decreases args.len(),
{
    let q = quote_all(args);
    let st0 = LexState { words, cur: None, mode: LexMode::Plain };
    if args.len() == 1 {
        assert(q[0] == quoted(args[0]));
        lemma_lex_quoted(args[0], words, None);
        assert(Seq::<char>::empty() + args[0] =~= args[0]);
        assert(args.drop_last() =~= Seq::<Seq<char>>::empty());
        assert(words + args.drop_last() =~= words);
    } else {
        let init = args.drop_last();
        lemma_lex_command_line(init, words);
        assert(q.drop_last() =~= quote_all(init));
        let prefix = quoted_command_line(init);
        assert(quoted_command_line(args) == prefix + seq![' '] + quoted(args.last()));
        let st1 = lex_run(prefix, st0);
        lemma_lex_run_concat(prefix, seq![' '], st0);
        assert(seq![' '].drop_last() =~= Seq::<char>::empty());
        let st2 = lex_run(seq![' '], st1);
        assert(st2 == (LexState { words: (words + init.drop_last()).push(init.last()), cur: None, mode: LexMode::Plain })) by {
            reveal_with_fuel(lex_run, 2);
        }
        assert((words + init.drop_last()).push(init.last()) =~= words + init);
        lemma_lex_run_concat(prefix + seq![' '], quoted(args.last()), st0);
        lemma_lex_quoted(args.last(), words + init, None);
        assert(Seq::<char>::empty() + args.last() =~= args.last());
        assert(init =~= args.drop_last());
    }
}

/// After the finished words `words`, a quoted command line adds exactly its
/// arguments as words.
pub proof fn lemma_lex_command_line_words(args: Seq<Seq<char>>, words: Seq<Seq<char>>)
    ensures
        ({
            let st = lex_run(quoted_command_line(args), LexState { words, cur: None, mode: LexMode::Plain });
            &&& st.mode is Plain
            &&& (match st.cur { Some(w) => st.words.push(w), None => st.words }) == words + args
        }),
{
    if args.len() == 0 {
        assert(quoted_command_line(args) =~= Seq::<char>::empty());
        assert(words + args =~= words);
    } else {
        lemma_lex_command_line(args, words);
        assert((words + args.drop_last()).push(args.last()) =~= words + args);
    }
}

/// Arguments quoted one by one and joined with spaces reach the shell as
/// exactly those arguments, in order, whatever characters they hold.
pub proof fn law_quoted_command_line(args: Seq<Seq<char>>)
    ensures
        shell_words(quoted_command_line(args)) == Some(args),
{
    lemma_lex_command_line_words(args, Seq::empty());
    assert(Seq::<Seq<char>>::empty() + args =~= args);
}

/// Every character of `w` is inert.
pub open spec fn all_inert(w: Seq<char>) -> bool {
    forall|i: int| 0 <= i < w.len() ==> is_inert(#[trigger] w[i])
}

/// Outside quotes, inert characters are added to the word being read.
pub proof fn lemma_lex_inert(w: Seq<char>, words: Seq<Seq<char>>, cur: Option<Seq<char>>)
    requires
        w.len() > 0,
        all_inert(w),
    ensures
        lex_run(w, LexState { words, cur, mode: LexMode::Plain })
            == (LexState { words, cur: Some(cur_or_empty(cur) + w), mode: LexMode::Plain }),
    decreases w.len(),
{
    let st = LexState { words, cur, mode: LexMode::Plain };
    if w.len() == 1 {
        assert(w.drop_last() =~= Seq::<char>::empty());
        assert(is_inert(w[0]));
        assert(cur_or_empty(cur).push(w[0]) =~= cur_or_empty(cur) + w);
    } else {
        lemma_lex_inert(w.drop_last(), words, cur);
        assert(is_inert(w[w.len() - 1]));
        assert((cur_or_empty(cur) + w.drop_last()).push(w.last()) =~= cur_or_empty(cur) + w);
    }
}

/// An unquoted blank ends the word being read.
pub proof fn lemma_lex_blank(words: Seq<Seq<char>>, x: Seq<char>)
    ensures
        lex_run(seq![' '], LexState { words, cur: Some(x), mode: LexMode::Plain })
            == (LexState { words: words.push(x), cur: None, mode: LexMode::Plain }),
{
    assert(seq![' '].drop_last() =~= Seq::<char>::empty());
    reveal_with_fuel(lex_run, 2);
}

/// An inert word followed by a blank is one finished word.
pub proof fn lemma_lex_inert_word(w: Seq<char>, words: Seq<Seq<char>>)
    requires
        w.len() > 0,
        all_inert(w),
    ensures
        lex_run(w + seq![' '], LexState { words, cur: None, mode: LexMode::Plain })
            == (LexState { words: words.push(w), cur: None, mode: LexMode::Plain }),
{
    let st = LexState { words, cur: None, mode: LexMode::Plain };
    lemma_lex_run_concat(w, seq![' '], st);
    lemma_lex_inert(w, words, None);
    assert(Seq::<char>::empty() + w =~= w);
    lemma_lex_blank(words, w);
}

/// A quoted word followed by a blank is one finished word.
pub proof fn lemma_lex_quoted_word(x: Seq<char>, words: Seq<Seq<char>>)
    ensures
        lex_run(quoted(x) + seq![' '], LexState { words, cur: None, mode: LexMode::Plain })
            == (LexState { words: words.push(x), cur: None, mode: LexMode::Plain }),
{
    let st = LexState { words, cur: None, mode: LexMode::Plain };
    lemma_lex_run_concat(quoted(x), seq![' '], st);
    lemma_lex_quoted(x, words, None);
    assert(Seq::<char>::empty() + x =~= x);
    lemma_lex_blank(words, x);
}

/// A simple command of the form `verb 'a' flag 'b'` (an inert word, a
/// quoted word, an inert word, a quoted word) is read as those four words.
pub proof fn lemma_verb_quoted_flag_quoted(verb: Seq<char>, a: Seq<char>, flag: Seq<char>, b: Seq<char>)
    requires
        verb.len() > 0,
        all_inert(verb),
        flag.len() > 0,
        all_inert(flag),
    ensures
        shell_words(verb + seq![' '] + quoted(a) + seq![' '] + flag + seq![' '] + quoted(b))
            == Some(seq![verb, a, flag, b]),
{
    let e = Seq::<Seq<char>>::empty();
    let s0 = lex_start();
    let p1 = verb + seq![' '];
    let p2 = quoted(a) + seq![' '];
    let p3 = flag + seq![' '];
    let whole = verb + seq![' '] + quoted(a) + seq![' '] + flag + seq![' '] + quoted(b);
    assert(whole =~= p1 + p2 + p3 + quoted(b));
    lemma_lex_inert_word(verb, e);
    lemma_lex_quoted_word(a, e.push(verb));
    lemma_lex_inert_word(flag, e.push(verb).push(a));
    lemma_lex_quoted(b, e.push(verb).push(a).push(flag), None);
    lemma_lex_run_concat(p1, p2, s0);
    lemma_lex_run_concat(p1 + p2, p3, s0);
    lemma_lex_run_concat(p1 + p2 + p3, quoted(b), s0);
    assert(Seq::<char>::empty() + b =~= b);
    assert(e.push(verb).push(a).push(flag).push(b) =~= seq![verb, a, flag, b]);
}

} // verus!

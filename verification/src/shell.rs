//! Shell quoting of a command line: each argument is left bare when it is made
//! only of characters a POSIX shell reads literally, and single-quoted
//! otherwise, with embedded single quotes written as `'"'"'`.

use vstd::prelude::*;

use crate::text::{chars_of, join_seqs};

verus! {

/// A character a POSIX shell reads literally outside quotes (the set
/// `shell_arg` leaves bare).
pub open spec fn is_shell_safe(c: char) -> bool {
    ('a' <= c && c <= 'z') || ('A' <= c && c <= 'Z') || ('0' <= c && c <= '9') || c == '@' || c
        == '%' || c == '_' || c == '+' || c == '=' || c == ':' || c == ',' || c == '.' || c == '/'
        || c == '-'
}

pub open spec fn all_shell_safe(v: Seq<char>) -> bool {
    forall|i: int| 0 <= i < v.len() ==> #[trigger] is_shell_safe(v[i])
}

/// What one character of the quoted body becomes: a single quote closes the
/// quoting, is written inside double quotes, and reopens it.
pub open spec fn quote_piece(c: char) -> Seq<char> {
    if c == '\'' {
        seq!['\'', '"', '\'', '"', '\'']
    } else {
        seq![c]
    }
}

/// The body of a single-quoted argument.
pub open spec fn quote_body(v: Seq<char>) -> Seq<char>
    decreases v.len(),
{
    if v.len() == 0 {
        Seq::empty()
    } else {
        quote_piece(v[0]) + quote_body(v.drop_first())
    }
}

/// `value` in single quotes.
pub open spec fn shell_quote_text(v: Seq<char>) -> Seq<char> {
    seq!['\''] + quote_body(v) + seq!['\'']
}

/// `value` bare when every character is safe, otherwise quoted.
pub open spec fn shell_arg_text(v: Seq<char>) -> Seq<char> {
    if all_shell_safe(v) {
        v
    } else {
        shell_quote_text(v)
    }
}

/// The command line: the program and the arguments, each as `shell_arg_text`,
/// separated by single spaces.
pub open spec fn shell_command_text(program: Seq<char>, args: Seq<Seq<char>>) -> Seq<char> {
    join_seqs(
        seq![shell_arg_text(program)] + args.map_values(|a: Seq<char>| shell_arg_text(a)),
        seq![' '],
    )
}

proof fn lemma_quote_body_append(a: Seq<char>, b: Seq<char>)
    ensures
        quote_body(a + b) == quote_body(a) + quote_body(b),
    decreases a.len(),
{
    if a.len() == 0 {
        assert(a + b =~= b);
        assert(quote_body(a) =~= Seq::<char>::empty());
        assert(quote_body(a) + quote_body(b) =~= quote_body(b));
    } else {
        assert((a + b).drop_first() =~= a.drop_first() + b);
        assert((a + b)[0] == a[0]);
        lemma_quote_body_append(a.drop_first(), b);
        assert(quote_body(a + b) =~= quote_piece(a[0]) + quote_body(a.drop_first() + b));
        assert(quote_body(a + b) =~= quote_body(a) + quote_body(b));
    }
}

proof fn lemma_quote_body_single(c: char)
    ensures
        quote_body(seq![c]) == quote_piece(c),
{
    assert(seq![c].drop_first() =~= Seq::<char>::empty());
    assert(quote_body(Seq::<char>::empty()) =~= Seq::<char>::empty());
    assert(quote_piece(c) + Seq::<char>::empty() =~= quote_piece(c));
}

/// Wraps `value` in single quotes, writing each embedded single quote as
/// `'"'"'`.
pub fn shell_quote(value: &str) -> (r: String)
    ensures
        r@ == shell_quote_text(value@),
{
    let v = chars_of(value);
    let mut r = String::new();
    r.append("'");
    proof {
        reveal_strlit("'");
    }
    let mut i: usize = 0;
    while i < v.len()
        invariant
            i <= v.len(),
            r@ == seq!['\''] + quote_body(v@.take(i as int)),
        decreases v.len() - i,
    {
        let c = v[i];
        if c == '\'' {
            r.append("'\"'\"'");
            proof {
                reveal_strlit("'\"'\"'");
            }
        } else {
            crate::text::push_char(&mut r, c);
        }
        proof {
            assert(v@.take(i + 1) =~= v@.take(i as int) + seq![c]);
            lemma_quote_body_append(v@.take(i as int), seq![c]);
            lemma_quote_body_single(c);
        }
        i = i + 1;
        assert(r@ =~= seq!['\''] + quote_body(v@.take(i as int)));
    }
    r.append("'");
    assert(v@.take(v.len() as int) =~= v@);
    assert(r@ =~= shell_quote_text(value@));
    r
}

/// `value` as one shell word: bare when every character is safe, quoted
/// otherwise.
pub fn shell_arg(value: &str) -> (r: String)
    ensures
        r@ == shell_arg_text(value@),
{
    let v = chars_of(value);
    let mut i: usize = 0;
    while i < v.len()
        invariant
            i <= v.len(),
            v@ == value@,
            forall|j: int| 0 <= j < i ==> #[trigger] is_shell_safe(v@[j]),
        decreases v.len() - i,
    {
        let c = v[i];
        let safe = ('a' <= c && c <= 'z') || ('A' <= c && c <= 'Z') || ('0' <= c && c <= '9') || c
            == '@' || c == '%' || c == '_' || c == '+' || c == '=' || c == ':' || c == ',' || c
            == '.' || c == '/' || c == '-';
        if !safe {
            assert(!is_shell_safe(value@[i as int]));
            assert(!all_shell_safe(value@));
            return shell_quote(value);
        }
        i = i + 1;
    }
    value.to_string()
}

/// The program and its arguments as one shell command line.
pub fn shell_command(program: &str, args: &[String]) -> (r: String)
    ensures
        r@ == shell_command_text(program@, args@.map_values(|a: String| a@)),
{
    let ghost av = args@.map_values(|a: String| a@);
    let ghost words = seq![shell_arg_text(program@)] + av.map_values(
        |a: Seq<char>| shell_arg_text(a),
    );
    let mut r = shell_arg(program);
    assert(words.take(1) =~= seq![shell_arg_text(program@)]);
    let mut i: usize = 0;
    while i < args.len()
        invariant
            i <= args.len(),
            av == args@.map_values(|a: String| a@),
            words == seq![shell_arg_text(program@)] + av.map_values(
                |a: Seq<char>| shell_arg_text(a),
            ),
            r@ == join_seqs(words.take(i + 1), seq![' ']),
        decreases args.len() - i,
    {
        let w = shell_arg(args[i].as_str());
        proof {
            assert(words.take(i + 2).drop_last() =~= words.take(i + 1));
            assert(words.take(i + 2).last() == words[i + 1]);
            assert(words[i + 1] == shell_arg_text(av[i as int]));
            assert(av[i as int] == args@[i as int]@);
            reveal_strlit(" ");
        }
        r.append(" ");
        r.append(w.as_str());
        i = i + 1;
        assert(r@ =~= join_seqs(words.take(i + 1), seq![' ']));
    }
    assert(words.take(args.len() + 1) =~= words);
    r
}


/// Where a reader of a command line stands: outside quotes, inside single
/// quotes, or inside double quotes.
#[derive(Clone, Copy, Debug, PartialEq, Eq, Structural)]
pub enum QuoteState {
    Plain,
    Single,
    Double,
}

/// A blank, which separates words outside quotes.
pub open spec fn is_blank(c: char) -> bool {
    c == ' ' || c == '\t' || c == '\n'
}

/// A character that a shell gives a meaning of its own outside quotes
/// (operators, expansions, escapes, patterns, comments, home directories).
pub open spec fn is_shell_special(c: char) -> bool {
    c == '|' || c == '&' || c == ';' || c == '<' || c == '>' || c == '(' || c == ')' || c == '$'
        || c == '`' || c == '\\' || c == '*' || c == '?' || c == '[' || c == '#' || c == '~'
}

/// Reads words from position `i` as a POSIX shell recognises the tokens of a
/// simple command and removes quotes: `st` is the quoting state, `cur` the
/// word being read, `in_word` whether one has begun, `acc` the words read.
/// Text that would need an expansion or an operator is not read (`None`),
/// nor is an unclosed quote.
pub open spec fn read_words(
    s: Seq<char>,
    i: int,
    st: QuoteState,
    cur: Seq<char>,
    in_word: bool,
    acc: Seq<Seq<char>>,
) -> Option<Seq<Seq<char>>>
    decreases s.len() - i,
{
    if i < 0 {
        None
    } else if i >= s.len() {
        if st == QuoteState::Plain {
            if in_word {
                Some(acc.push(cur))
            } else {
                Some(acc)
            }
        } else {
            None
        }
    } else {
        let c = s[i];
        match st {
            QuoteState::Plain => if is_blank(c) {
                if in_word {
                    read_words(s, i + 1, QuoteState::Plain, Seq::empty(), false, acc.push(cur))
                } else {
                    read_words(s, i + 1, QuoteState::Plain, cur, false, acc)
                }
            } else if c == '\'' {
                read_words(s, i + 1, QuoteState::Single, cur, true, acc)
            } else if c == '"' {
                read_words(s, i + 1, QuoteState::Double, cur, true, acc)
            } else if is_shell_special(c) {
                None
            } else {
                read_words(s, i + 1, QuoteState::Plain, cur.push(c), true, acc)
            },
            QuoteState::Single => if c == '\'' {
                read_words(s, i + 1, QuoteState::Plain, cur, true, acc)
            } else {
                read_words(s, i + 1, QuoteState::Single, cur.push(c), true, acc)
            },
            QuoteState::Double => if c == '"' {
                read_words(s, i + 1, QuoteState::Plain, cur, true, acc)
            } else if c == '$' || c == '`' || c == '\\' {
                None
            } else {
                read_words(s, i + 1, QuoteState::Double, cur.push(c), true, acc)
            },
        }
    }
}

/// The words of a command line, as a shell splits it and removes quotes.
pub open spec fn shell_words(s: Seq<char>) -> Option<Seq<Seq<char>>> {
    read_words(s, 0, QuoteState::Plain, Seq::empty(), false, Seq::empty())
}

proof fn lemma_read_plain(
    s: Seq<char>,
    i: int,
    v: Seq<char>,
    cur: Seq<char>,
    in_word: bool,
    acc: Seq<Seq<char>>,
)
    requires
        0 <= i,
        i + v.len() <= s.len(),
        s.subrange(i, i + v.len()) == v,
        all_shell_safe(v),
        v.len() > 0,
    ensures
        read_words(s, i, QuoteState::Plain, cur, in_word, acc) == read_words(
            s,
            i + v.len(),
            QuoteState::Plain,
            cur + v,
            true,
            acc,
        ),
    decreases v.len(),
{
    let c = v[0];
    assert(s[i] == s.subrange(i, i + v.len())[0]);
    assert(is_shell_safe(v[0]));
    if v.len() == 1 {
        assert(cur.push(c) =~= cur + v);
    } else {
        let rest = v.drop_first();
        assert(s.subrange(i + 1, i + 1 + rest.len()) =~= rest);
        assert forall|k: int| 0 <= k < rest.len() implies #[trigger] is_shell_safe(rest[k]) by {
            assert(rest[k] == v[k + 1]);
        }
        lemma_read_plain(s, i + 1, rest, cur.push(c), true, acc);
        assert(cur.push(c) + rest =~= cur + v);
    }
}

proof fn lemma_read_quoted_body(
    s: Seq<char>,
    i: int,
    v: Seq<char>,
    cur: Seq<char>,
    acc: Seq<Seq<char>>,
)
    requires
        0 <= i,
        i + quote_body(v).len() <= s.len(),
        s.subrange(i, i + quote_body(v).len()) == quote_body(v),
    ensures
        read_words(s, i, QuoteState::Single, cur, true, acc) == read_words(
            s,
            i + quote_body(v).len(),
            QuoteState::Single,
            cur + v,
            true,
            acc,
        ),
    decreases v.len(),
{
    if v.len() == 0 {
        assert(cur + v =~= cur);
    } else {
        let c = v[0];
        let rest = v.drop_first();
        let p = quote_piece(c);
        assert(quote_body(v) == p + quote_body(rest));
        let n = p.len() as int;
        assert forall|k: int| 0 <= k < n implies s[i + k] == p[k] by {
            assert(s.subrange(i, i + quote_body(v).len())[k] == quote_body(v)[k]);
        }
        assert(s.subrange(i + n, i + n + quote_body(rest).len()) =~= quote_body(rest)) by {
            assert forall|k: int| 0 <= k < quote_body(rest).len() implies s[i + n + k]
                == quote_body(rest)[k] by {
                assert(s.subrange(i, i + quote_body(v).len())[n + k] == quote_body(v)[n + k]);
            }
        }
        lemma_read_quoted_body(s, i + n, rest, cur.push(c), acc);
        assert(cur.push(c) + rest =~= cur + v);
        if c == '\'' {
            let q = '\'';
            let sub = s.subrange(i, i + quote_body(v).len());
            assert(s[i] == sub[0] && s[i + 1] == sub[1] && s[i + 2] == sub[2] && s[i + 3] == sub[3]
                && s[i + 4] == sub[4]);
            assert(sub[0] == p[0] && sub[1] == p[1] && sub[2] == p[2] && sub[3] == p[3] && sub[4]
                == p[4]);
            assert(read_words(s, i, QuoteState::Single, cur, true, acc) == read_words(
                s,
                i + 1,
                QuoteState::Plain,
                cur,
                true,
                acc,
            ));
            assert(read_words(s, i + 1, QuoteState::Plain, cur, true, acc) == read_words(
                s,
                i + 2,
                QuoteState::Double,
                cur,
                true,
                acc,
            ));
            assert(read_words(s, i + 2, QuoteState::Double, cur, true, acc) == read_words(
                s,
                i + 3,
                QuoteState::Double,
                cur.push(q),
                true,
                acc,
            ));
            assert(read_words(s, i + 3, QuoteState::Double, cur.push(q), true, acc) == read_words(
                s,
                i + 4,
                QuoteState::Plain,
                cur.push(q),
                true,
                acc,
            ));
            assert(read_words(s, i + 4, QuoteState::Plain, cur.push(q), true, acc) == read_words(
                s,
                i + 5,
                QuoteState::Single,
                cur.push(q),
                true,
                acc,
            ));
        } else {
            let sub = s.subrange(i, i + quote_body(v).len());
            assert(s[i] == sub[0]);
            assert(sub[0] == p[0]);
        }
    }
}

proof fn lemma_read_arg(s: Seq<char>, i: int, v: Seq<char>, acc: Seq<Seq<char>>)
    requires
        0 <= i,
        i + shell_arg_text(v).len() <= s.len(),
        s.subrange(i, i + shell_arg_text(v).len()) == shell_arg_text(v),
        v.len() > 0,
    ensures
        read_words(s, i, QuoteState::Plain, Seq::empty(), false, acc) == read_words(
            s,
            i + shell_arg_text(v).len(),
            QuoteState::Plain,
            v,
            true,
            acc,
        ),
{
    let e = Seq::<char>::empty();
    if all_shell_safe(v) {
        lemma_read_plain(s, i, v, e, false, acc);
        assert(e + v =~= v);
    } else {
        let w = shell_quote_text(v);
        let b = quote_body(v);
        assert(s[i] == w[0]);
        assert(s.subrange(i + 1, i + 1 + b.len()) =~= b) by {
            assert forall|k: int| 0 <= k < b.len() implies s[i + 1 + k] == b[k] by {
                assert(s.subrange(i, i + w.len())[1 + k] == w[1 + k]);
            }
        }
        assert(s[i + 1 + b.len()] == '\'') by {
            assert(s.subrange(i, i + w.len())[1 + b.len() as int] == w[1 + b.len() as int]);
        }
        lemma_read_quoted_body(s, i + 1, v, e, acc);
        assert(e + v =~= v);
    }
}

proof fn lemma_join_front(p: Seq<Seq<char>>, sep: Seq<char>)
    requires
        p.len() >= 2,
    ensures
        join_seqs(p, sep) == p[0] + sep + join_seqs(p.drop_first(), sep),
    decreases p.len(),
{
    let a = p.drop_last();
    let b = p.drop_first();
    assert(join_seqs(p, sep) == join_seqs(a, sep) + sep + p.last());
    if p.len() == 2 {
        assert(a.len() == 1 && a[0] == p[0]);
        assert(join_seqs(a, sep) == p[0]);
        assert(b.len() == 1 && b[0] == p[1]);
        assert(join_seqs(b, sep) == p[1]);
        assert(p.last() == p[1]);
    } else {
        lemma_join_front(a, sep);
        assert(a.drop_first() =~= b.drop_last());
        assert(b.last() == p.last());
        assert(a[0] == p[0]);
        assert(join_seqs(b, sep) == join_seqs(b.drop_last(), sep) + sep + b.last());
        assert(join_seqs(p, sep) =~= p[0] + sep + join_seqs(b, sep));
    }
}

proof fn lemma_read_args(s: Seq<char>, i: int, ws: Seq<Seq<char>>, acc: Seq<Seq<char>>)
    requires
        0 <= i <= s.len(),
        ws.len() > 0,
        forall|k: int| 0 <= k < ws.len() ==> #[trigger] ws[k].len() > 0,
        s.subrange(i, s.len() as int) == join_seqs(
            ws.map_values(|a: Seq<char>| shell_arg_text(a)),
            seq![' '],
        ),
    ensures
        read_words(s, i, QuoteState::Plain, Seq::empty(), false, acc) == Some(acc + ws),
    decreases ws.len(),
{
    let words = ws.map_values(|a: Seq<char>| shell_arg_text(a));
    let w0 = words[0];
    assert(w0 == shell_arg_text(ws[0]));
    assert(ws[0].len() > 0);
    if ws.len() == 1 {
        assert(words =~= seq![w0]);
        assert(join_seqs(words, seq![' ']) == w0);
        assert(i + w0.len() == s.len());
        assert(s.subrange(i, i + w0.len()) =~= w0);
        lemma_read_arg(s, i, ws[0], acc);
        assert(acc.push(ws[0]) =~= acc + ws);
    } else {
        lemma_join_front(words, seq![' ']);
        let rest = words.drop_first();
        let tail = join_seqs(rest, seq![' ']);
        assert(join_seqs(words, seq![' ']) == w0 + seq![' '] + tail);
        let j = i + w0.len();
        assert(s.subrange(i, j) =~= w0) by {
            assert forall|k: int| 0 <= k < w0.len() implies s[i + k] == w0[k] by {
                assert(s.subrange(i, s.len() as int)[k] == (w0 + seq![' '] + tail)[k]);
            }
        }
        assert(s[j] == ' ') by {
            assert(s.subrange(i, s.len() as int)[w0.len() as int] == (w0 + seq![' '] + tail)[w0.len() as int]);
        }
        lemma_read_arg(s, i, ws[0], acc);
        let ws2 = ws.drop_first();
        assert(ws2.map_values(|a: Seq<char>| shell_arg_text(a)) =~= rest);
        assert(s.subrange(j + 1, s.len() as int) =~= tail) by {
            assert forall|k: int| 0 <= k < tail.len() implies s[j + 1 + k] == tail[k] by {
                assert(s.subrange(i, s.len() as int)[w0.len() + 1 + k] == (w0 + seq![' '] + tail)[w0.len() + 1 + k]);
            }
        }
        assert forall|k: int| 0 <= k < ws2.len() implies #[trigger] ws2[k].len() > 0 by {
            assert(ws2[k] == ws[k + 1]);
        }
        assert(j + 1 <= s.len()) by {
            assert(s.subrange(i, s.len() as int).len() == w0.len() + 1 + tail.len());
        }
        lemma_read_args(s, j + 1, ws2, acc.push(ws[0]));
        assert(acc.push(ws[0]) + ws2 =~= acc + ws);
    }
}

/// Read back as a shell splits a simple command into words (token recognition
/// and quote removal), the command line built by `shell_command` gives the
/// program and the arguments, unchanged and in order, when none of them is
/// empty.
pub proof fn lemma_shell_command_round_trip(program: Seq<char>, args: Seq<Seq<char>>)
    requires
        program.len() > 0,
        forall|k: int| 0 <= k < args.len() ==> #[trigger] args[k].len() > 0,
    ensures
        shell_words(shell_command_text(program, args)) == Some(seq![program] + args),
{
    let ws = seq![program] + args;
    let s = shell_command_text(program, args);
    assert(ws.map_values(|a: Seq<char>| shell_arg_text(a)) =~= seq![shell_arg_text(program)]
        + args.map_values(|a: Seq<char>| shell_arg_text(a)));
    assert forall|k: int| 0 <= k < ws.len() implies #[trigger] ws[k].len() > 0 by {
        if k > 0 {
            assert(ws[k] == args[k - 1]);
        }
    }
    assert(s.subrange(0, s.len() as int) =~= s);
    lemma_read_args(s, 0, ws, Seq::empty());
    assert(Seq::<Seq<char>>::empty() + ws =~= ws);
}

} // verus!

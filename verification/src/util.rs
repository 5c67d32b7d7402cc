//! Command lines and the name of the current user.

use crate::text::{
    chars, is_white, next_black, next_bounds, next_white, option_text, texts, white, words,
};
use vstd::prelude::*;

verus! {

/// The quotes that a character of a command line stands in.
#[derive(Clone, Copy, Debug, PartialEq, Eq, Structural)]
pub enum Quote {
    Bare,
    Single,
    Double,
}

/// What has been read of the current word, which is empty where none was begun.
pub open spec fn begun(word: Option<Seq<char>>) -> Seq<char> {
    match word {
        Some(w) => w,
        None => Seq::empty(),
    }
}

/// The words of the command line `s`, read inside the quotes `quote` with `word`
/// begun.
///
/// White space outside quotes ends a word. Quotes of one kind keep the other kind and
/// white space as they are. Outside single quotes a backslash keeps the character
/// behind it as it is; one at the end of the line stands for nothing.
pub open spec fn command_words(
    s: Seq<char>,
    quote: Quote,
    word: Option<Seq<char>>,
) -> Seq<Seq<char>>
    decreases s.len(),
{
    if s.len() == 0 {
        match word {
            Some(w) => seq![w],
            None => Seq::empty(),
        }
    } else {
        let c = s[0];
        let rest = s.skip(1);
        if c == '\\' && quote != Quote::Single {
            if rest.len() > 0 {
                command_words(rest.skip(1), quote, Some(begun(word).push(rest[0])))
            } else {
                command_words(rest, quote, word)
            }
        } else if c == '\'' && quote != Quote::Double {
            let turned = if quote == Quote::Single {
                Quote::Bare
            } else {
                Quote::Single
            };
            command_words(rest, turned, Some(begun(word)))
        } else if c == '"' && quote != Quote::Single {
            let turned = if quote == Quote::Double {
                Quote::Bare
            } else {
                Quote::Double
            };
            command_words(rest, turned, Some(begun(word)))
        } else if white(c) && quote == Quote::Bare {
            match word {
                Some(w) => seq![w] + command_words(rest, quote, None),
                None => command_words(rest, quote, None),
            }
        } else {
            command_words(rest, quote, Some(begun(word).push(c)))
        }
    }
}

/// The program and the arguments that a command line names.
pub open spec fn command_line(s: Seq<char>) -> Seq<Seq<char>> {
    command_words(s, Quote::Bare, None)
}

/// Split a command line into a program and its arguments.
///
/// Handles white space, single and double quotes, and the backslash. Gives nothing
/// for a line of white space.
pub fn split_command_line(input: &str) -> (r: Vec<String>)
    ensures
        texts(r@) == command_line(input@),
{
    let v = chars(input);
    let ghost s = input@;
    let mut out: Vec<String> = Vec::new();
    let mut current = String::new();
    let mut quote = Quote::Bare;
    let mut has_word = false;
    let mut i: usize = 0;
    let ghost word: Option<Seq<char>> = None;
    assert(s.skip(0) =~= s);
    assert(texts(out@) + command_line(s) =~= command_line(s));
    while i < v.len()
        invariant
            v@ == s,
            i <= v@.len(),
            has_word == word.is_some(),
            current@ == begun(word),
            command_line(s) == texts(out@) + command_words(s.skip(i as int), quote, word),
        decreases v@.len() - i,
    {
        let c = v[i];
        let ghost left = s.skip(i as int);
        assert(left[0] == c);
        assert(left.skip(1) =~= s.skip(i + 1));
        if c == '\\' && quote != Quote::Single {
            if i + 1 < v.len() {
                assert(left.skip(1)[0] == v@[i + 1]);
                assert(left.skip(1).skip(1) =~= s.skip(i + 2));
                current.push(v[i + 1]);
                has_word = true;
                proof {
                    word = Some(begun(word).push(v@[i + 1]));
                }
                i = i + 1;
            }
        } else if c == '\'' && quote != Quote::Double {
            quote = if quote == Quote::Single {
                Quote::Bare
            } else {
                Quote::Single
            };
            has_word = true;
            proof {
                word = Some(begun(word));
            }
        } else if c == '"' && quote != Quote::Single {
            quote = if quote == Quote::Double {
                Quote::Bare
            } else {
                Quote::Double
            };
            has_word = true;
            proof {
                word = Some(begun(word));
            }
        } else if is_white(c) && quote == Quote::Bare {
            if has_word {
                let ghost before = out@;
                out.push(current);
                current = String::new();
                has_word = false;
                proof {
                    assert(texts(out@) =~= texts(before).push(begun(word)));
                    assert(texts(before) + command_words(left, quote, word) =~= texts(out@)
                        + command_words(left.skip(1), quote, None));
                    word = None;
                    assert(current@ =~= Seq::<char>::empty());
                }
            }
        } else {
            current.push(c);
            has_word = true;
            proof {
                word = Some(begun(word).push(c));
            }
        }
        i = i + 1;
    }
    let ghost before = out@;
    if has_word {
        out.push(current);
        assert(texts(out@) =~= texts(before).push(begun(word)));
    }
    assert(texts(out@) =~= texts(before) + command_words(s.skip(i as int), quote, word));
    out
}

/// A line of white space names no command.
pub proof fn blank_line_is_empty(s: Seq<char>)
    requires
        forall|i: int| 0 <= i < s.len() ==> white(#[trigger] s[i]),
    ensures
        command_line(s) == Seq::<Seq<char>>::empty(),
    decreases s.len(),
{
    if s.len() > 0 {
        assert(white(s[0]));
        assert forall|i: int| 0 <= i < s.skip(1).len() implies white(#[trigger] s.skip(1)[i]) by {
            assert(s.skip(1)[i] == s[i + 1]);
        }
        blank_line_is_empty(s.skip(1));
    }
}

/// Whether `c` means something else than itself in a command line.
pub open spec fn quoting(c: char) -> bool {
    c == '\\' || c == '\'' || c == '"'
}

/// Reading a run of ordinary characters adds them to the word.
proof fn plain_run(s: Seq<char>, word: Option<Seq<char>>, n: int)
    requires
        0 < n <= s.len(),
        forall|i: int| 0 <= i < n ==> !quoting(#[trigger] s[i]) && !white(s[i]),
    ensures
        command_words(s, Quote::Bare, word) == command_words(
            s.skip(n),
            Quote::Bare,
            Some(begun(word) + s.take(n)),
        ),
    decreases n,
{
    assert(!quoting(s[0]) && !white(s[0]));
    let rest = s.skip(1);
    let next = Some(begun(word).push(s[0]));
    if n == 1 {
        assert(begun(word) + s.take(1) =~= begun(word).push(s[0]));
    } else {
        assert forall|i: int| 0 <= i < n - 1 implies !quoting(#[trigger] rest[i]) && !white(
            rest[i],
        ) by {
            assert(rest[i] == s[i + 1]);
        }
        plain_run(rest, next, n - 1);
        assert(rest.skip(n - 1) =~= s.skip(n));
        assert(begun(next) + rest.take(n - 1) =~= begun(word) + s.take(n));
    }
}

/// Reading white space before a word changes nothing.
proof fn blank_run(s: Seq<char>, n: int)
    requires
        0 <= n <= s.len(),
        forall|i: int| 0 <= i < n ==> white(#[trigger] s[i]),
    ensures
        command_words(s, Quote::Bare, None) == command_words(s.skip(n), Quote::Bare, None),
    decreases n,
{
    if n == 0 {
        assert(s.skip(0) =~= s);
    } else {
        assert(white(s[0]));
        let rest = s.skip(1);
        assert forall|i: int| 0 <= i < n - 1 implies white(#[trigger] rest[i]) by {
            assert(rest[i] == s[i + 1]);
        }
        blank_run(rest, n - 1);
        assert(rest.skip(n - 1) =~= s.skip(n));
    }
}

/// A command line without quotes and backslashes is split at white space.
pub proof fn unquoted_line_is_words(s: Seq<char>)
    requires
        forall|i: int| 0 <= i < s.len() ==> !quoting(#[trigger] s[i]),
    ensures
        command_line(s) == words(s),
    decreases s.len(),
{
    let a = next_black(s, 0);
    next_bounds(s, 0);
    blank_run(s, a);
    if a < s.len() {
        let b = next_white(s, a);
        next_bounds(s, a);
        let t = s.skip(a);
        let n = b - a;
        assert(n > 0);
        assert forall|i: int| 0 <= i < n implies !quoting(#[trigger] t[i]) && !white(t[i]) by {
            assert(t[i] == s[a + i]);
        }
        plain_run(t, None, n);
        let u = t.skip(n);
        assert(u =~= s.skip(b));
        assert(begun(None) + t.take(n) =~= s.subrange(a, b));
        assert forall|i: int| 0 <= i < u.len() implies !quoting(#[trigger] u[i]) by {
            assert(u[i] == s[b + i]);
        }
        unquoted_line_is_words(u);
        let w = s.subrange(a, b);
        if u.len() > 0 {
            assert(u[0] == s[b]);
            blank_run(u, 1);
            assert(command_words(u, Quote::Bare, Some(w)) == seq![w] + command_words(
                u.skip(1),
                Quote::Bare,
                None,
            ));
        } else {
            assert(words(u) =~= Seq::<Seq<char>>::empty());
            assert(command_words(u, Quote::Bare, Some(w)) =~= seq![w] + words(u));
        }
    }
}

proof fn single_run(s: Seq<char>, word: Seq<char>, n: int)
    requires
        0 <= n < s.len(),
        forall|i: int| 0 <= i < n ==> #[trigger] s[i] != '\'',
        s[n] == '\'',
    ensures
        command_words(s, Quote::Single, Some(word)) == command_words(
            s.skip(n + 1),
            Quote::Bare,
            Some(word + s.take(n)),
        ),
    decreases n,
{
    if n == 0 {
        assert(word + s.take(0) =~= word);
    } else {
        let rest = s.skip(1);
        assert(s[0] != '\'');
        assert forall|i: int| 0 <= i < n - 1 implies #[trigger] rest[i] != '\'' by {
            assert(rest[i] == s[i + 1]);
        }
        single_run(rest, word.push(s[0]), n - 1);
        assert(rest.skip(n) =~= s.skip(n + 1));
        assert(word.push(s[0]) + rest.take(n - 1) =~= word + s.take(n));
    }
}

/// Any text without a single quote is one word when put in single quotes.
pub proof fn single_quotes_keep_text(t: Seq<char>)
    requires
        forall|i: int| 0 <= i < t.len() ==> #[trigger] t[i] != '\'',
    ensures
        command_line(seq!['\''] + t + seq!['\'']) == seq![t],
{
    let s = seq!['\''] + t + seq!['\''];
    let rest = s.skip(1);
    let n = t.len() as int;
    assert(rest =~= t + seq!['\'']);
    assert forall|i: int| 0 <= i < n implies #[trigger] rest[i] != '\'' by {
        assert(rest[i] == t[i]);
    }
    single_run(rest, Seq::empty(), n);
    assert(rest.skip(n + 1) =~= Seq::<char>::empty());
    assert(Seq::<char>::empty() + rest.take(n) =~= t);
    assert(begun(None) =~= Seq::<char>::empty());
}

/// The quotes that stay open behind `s`, read inside the quotes `quote`. `None` where `s` ends
/// in a backslash that would keep the character behind it.
pub open spec fn left_open(s: Seq<char>, quote: Quote) -> Option<Quote>
    decreases s.len(),
{
    if s.len() == 0 {
        Some(quote)
    } else {
        let c = s[0];
        let rest = s.skip(1);
        if c == '\\' && quote != Quote::Single {
            if rest.len() > 0 {
                left_open(rest.skip(1), quote)
            } else {
                None
            }
        } else if c == '\'' && quote != Quote::Double {
            left_open(
                rest,
                if quote == Quote::Single {
                    Quote::Bare
                } else {
                    Quote::Single
                },
            )
        } else if c == '"' && quote != Quote::Single {
            left_open(
                rest,
                if quote == Quote::Double {
                    Quote::Bare
                } else {
                    Quote::Double
                },
            )
        } else {
            left_open(rest, quote)
        }
    }
}

proof fn words_part(a: Seq<char>, c: char, b: Seq<char>, quote: Quote, word: Option<Seq<char>>)
    requires
        white(c),
        left_open(a, quote) == Some(Quote::Bare),
    ensures
        command_words(a + seq![c] + b, quote, word) == command_words(a, quote, word)
            + command_line(b),
    decreases a.len(),
{
    let s = a + seq![c] + b;
    if a.len() == 0 {
        assert(s[0] == c);
        assert(s.skip(1) =~= b);
        assert(Seq::<Seq<char>>::empty() + command_line(b) =~= command_line(b));
    } else {
        let d = a[0];
        let rest = a.skip(1);
        assert(s[0] == d);
        assert(s.skip(1) =~= rest + seq![c] + b);
        if d == '\\' && quote != Quote::Single {
            assert(s.skip(1)[0] == rest[0]);
            assert(s.skip(1).skip(1) =~= rest.skip(1) + seq![c] + b);
            words_part(rest.skip(1), c, b, quote, Some(begun(word).push(rest[0])));
        } else if d == '\'' && quote != Quote::Double {
            let turned = if quote == Quote::Single {
                Quote::Bare
            } else {
                Quote::Single
            };
            words_part(rest, c, b, turned, Some(begun(word)));
        } else if d == '"' && quote != Quote::Single {
            let turned = if quote == Quote::Double {
                Quote::Bare
            } else {
                Quote::Double
            };
            words_part(rest, c, b, turned, Some(begun(word)));
        } else if white(d) && quote == Quote::Bare {
            words_part(rest, c, b, quote, None);
            if let Some(w) = word {
                assert(seq![w] + (command_words(rest, quote, None) + command_line(b)) =~= (seq![w]
                    + command_words(rest, quote, None)) + command_line(b));
            }
        } else {
            words_part(rest, c, b, quote, Some(begun(word).push(d)));
        }
    }
}

/// White space outside quotes parts a command line: the words before it and the words behind
/// it are those of the two lines on their own.
pub proof fn white_space_parts_lines(a: Seq<char>, c: char, b: Seq<char>)
    requires
        white(c),
        left_open(a, Quote::Bare) == Some(Quote::Bare),
    ensures
        command_line(a + seq![c] + b) == command_line(a) + command_line(b),
{
    words_part(a, c, b, Quote::Bare, None);
}

/// The name of the user who runs the server: the first of the three values, taken
/// from `USER`, `LOGNAME` and `USERNAME`, that is set and not empty.
pub open spec fn first_name(
    user: Option<Seq<char>>,
    logname: Option<Seq<char>>,
    username: Option<Seq<char>>,
) -> Option<Seq<char>> {
    if user is Some && user->0.len() > 0 {
        user
    } else if logname is Some && logname->0.len() > 0 {
        logname
    } else if username is Some && username->0.len() > 0 {
        username
    } else {
        None
    }
}

fn non_empty(value: Option<String>) -> (r: Option<String>)
    ensures
        r is Some <==> value is Some && value->0@.len() > 0,
        r is Some ==> r->0@ == value->0@,
{
    match value {
        Some(v) => if chars(v.as_str()).len() == 0 {
            None
        } else {
            Some(v)
        },
        None => None,
    }
}

/// The name of the user who runs the server, from the values of `USER`, `LOGNAME`
/// and `USERNAME`.
pub fn current_os_user(
    user: Option<String>,
    logname: Option<String>,
    username: Option<String>,
) -> (r: Option<String>)
    ensures
        option_text(r) == first_name(
            option_text(user),
            option_text(logname),
            option_text(username),
        ),
{
    match non_empty(user) {
        Some(v) => Some(v),
        None => match non_empty(logname) {
            Some(v) => Some(v),
            None => non_empty(username),
        },
    }
}

proof fn double_quoted(t: Seq<char>, rest: Seq<char>, word: Option<Seq<char>>)
    requires
        forall|i: int| 0 <= i < t.len() ==> #[trigger] t[i] != '"' && t[i] != '\\',
    ensures
        command_words(t + seq!['"'] + rest, Quote::Double, word) == command_words(
            rest,
            Quote::Bare,
            Some(begun(word) + t),
        ),
    decreases t.len(),
{
    let s = t + seq!['"'] + rest;
    if t.len() == 0 {
        assert(s[0] == '"');
        assert(s.skip(1) =~= rest);
        assert(begun(word) + t =~= begun(word));
    } else {
        assert(s[0] == t[0]);
        assert(s.skip(1) =~= t.skip(1) + seq!['"'] + rest);
        assert forall|i: int| 0 <= i < t.skip(1).len() implies #[trigger] t.skip(1)[i] != '"'
            && t.skip(1)[i] != '\\' by {
            assert(t.skip(1)[i] == t[i + 1]);
        }
        let next = Some(begun(word).push(t[0]));
        double_quoted(t.skip(1), rest, next);
        assert(begun(next) + t.skip(1) =~= begun(word) + t);
    }
}

proof fn single_quoted(t: Seq<char>, rest: Seq<char>, word: Option<Seq<char>>)
    requires
        forall|i: int| 0 <= i < t.len() ==> #[trigger] t[i] != '\'',
    ensures
        command_words(t + seq!['\''] + rest, Quote::Single, word) == command_words(
            rest,
            Quote::Bare,
            Some(begun(word) + t),
        ),
    decreases t.len(),
{
    let s = t + seq!['\''] + rest;
    if t.len() == 0 {
        assert(s[0] == '\'');
        assert(s.skip(1) =~= rest);
        assert(begun(word) + t =~= begun(word));
    } else {
        assert(s[0] == t[0]);
        assert(s.skip(1) =~= t.skip(1) + seq!['\''] + rest);
        assert forall|i: int| 0 <= i < t.skip(1).len() implies #[trigger] t.skip(1)[i] != '\'' by {
            assert(t.skip(1)[i] == t[i + 1]);
        }
        let next = Some(begun(word).push(t[0]));
        single_quoted(t.skip(1), rest, next);
        assert(begun(next) + t.skip(1) =~= begun(word) + t);
    }
}

/// What stands in quotes belongs to the word that it stands in, white space and the other
/// quotes included, and what follows the quotes goes on with that word.
pub proof fn quotes_keep_text_in_the_word(t: Seq<char>, rest: Seq<char>, word: Option<Seq<char>>)
    ensures
        (forall|i: int| 0 <= i < t.len() ==> #[trigger] t[i] != '"' && t[i] != '\\')
            ==> command_words(seq!['"'] + t + seq!['"'] + rest, Quote::Bare, word) == command_words(
            rest,
            Quote::Bare,
            Some(begun(word) + t),
        ),
        (forall|i: int| 0 <= i < t.len() ==> #[trigger] t[i] != '\'') ==> command_words(
            seq!['\''] + t + seq!['\''] + rest,
            Quote::Bare,
            word,
        ) == command_words(rest, Quote::Bare, Some(begun(word) + t)),
{
    let d = seq!['"'] + t + seq!['"'] + rest;
    assert(d[0] == '"');
    assert(d.skip(1) =~= t + seq!['"'] + rest);
    let s = seq!['\''] + t + seq!['\''] + rest;
    assert(s[0] == '\'');
    assert(s.skip(1) =~= t + seq!['\''] + rest);
    if forall|i: int| 0 <= i < t.len() ==> #[trigger] t[i] != '"' && t[i] != '\\' {
        double_quoted(t, rest, Some(begun(word)));
    }
    if forall|i: int| 0 <= i < t.len() ==> #[trigger] t[i] != '\'' {
        single_quoted(t, rest, Some(begun(word)));
    }
}

/// Outside single quotes a backslash makes the character behind it a part of the word, whatever
/// it is, and any character that is neither white space nor a quote nor a backslash is one.
pub proof fn characters_of_words(c: char, rest: Seq<char>, word: Option<Seq<char>>, quote: Quote)
    ensures
        quote != Quote::Single ==> command_words(seq!['\\', c] + rest, quote, word)
            == command_words(rest, quote, Some(begun(word).push(c))),
        quote == Quote::Bare && !white(c) && c != '\\' && c != '"' && c != '\'' ==> command_words(
            seq![c] + rest,
            quote,
            word,
        ) == command_words(rest, quote, Some(begun(word).push(c))),
        command_words(Seq::empty(), quote, word) == (match word {
            Some(w) => seq![w],
            None => Seq::<Seq<char>>::empty(),
        }),
{
    let s = seq!['\\', c] + rest;
    assert(s[0] == '\\');
    assert(s.skip(1)[0] == c);
    assert(s.skip(1).skip(1) =~= rest);
    let t = seq![c] + rest;
    assert(t[0] == c);
    assert(t.skip(1) =~= rest);
}

/// The user is the one that `USER` names, else the one that `LOGNAME` names, and else the one
/// that `USERNAME` names. One that is empty names none.
pub proof fn which_user_runs_the_server(
    name: Seq<char>,
    logname: Option<Seq<char>>,
    username: Option<Seq<char>>,
)
    ensures
        name.len() > 0 ==> first_name(Some(name), logname, username) == Some(name),
        name.len() > 0 ==> first_name(None, Some(name), username) == Some(name),
        name.len() > 0 ==> first_name(None, None, Some(name)) == Some(name),
        first_name(Some(Seq::empty()), logname, username) == first_name(None, logname, username),
        first_name(None, Some(Seq::empty()), username) == first_name(None, None, username),
        first_name(None, None, Some(Seq::empty())) is None,
        first_name(None, None, None) is None,
{
}

} // verus!

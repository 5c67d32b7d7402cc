//! The logs of the tunnel programs: one file for each day and role, without secrets.

use crate::number::{decimal, digits};
use crate::order::{
    precedes, sort_texts, sorted, sorted_is_in_order, the_first_difference_decides,
};
use crate::paths::{join_path, placed, PathStyle};
use crate::text::{
    begins, chars, contains, control, ends, ends_with, first_chars, holds, is_control, join, joined,
    joined_chars, lower, lowered, next_black, next_bounds, next_white, option_text, same,
    split_words, stands_at, starts_with, take_chars, texts, to_lower, white, words,
};
use vstd::prelude::*;
use vstd::seq_lib::group_to_multiset_ensures;

verus! {

/// The calendar date of a time in seconds since 1970, as `time` writes it, where the
/// calendar of `time` holds it.
pub uninterp spec fn calendar_date(seconds: i64) -> Option<Seq<char>>;

/// `time::OffsetDateTime::from_unix_timestamp`, and of what it gives `date` and the
/// text of the date. The text depends on `seconds` alone, in universal time. The
/// calendar holds every second from 1970 to the end of the year 9999.
#[verifier::external_body]
fn utc_date(seconds: i64) -> (r: Option<String>)
    ensures
        option_text(r) == calendar_date(seconds),
        0 <= seconds < 253_402_300_800 ==> r is Some,
{
    time::OffsetDateTime::from_unix_timestamp(seconds).ok().map(|t| t.date().to_string())
}

/// The date of the day with number `days`, counted from the first of January 1970.
pub fn date(days: u64) -> (r: String)
    requires
        days <= 2_932_896,
    ensures
        calendar_date((days * 86400) as i64) == Some(r@),
{
    match utc_date((days * 86400) as i64) {
        Some(text) => text,
        None => String::new(),
    }
}

/// Whether `s`, in small letters, may hold a secret.
pub open spec fn secret(s: Seq<char>) -> bool {
    ||| holds(s, "token"@)
    ||| holds(s, "authorization"@)
    ||| holds(s, "password"@)
    ||| holds(s, "secret"@)
    ||| holds(s, "credential"@)
    ||| holds(s, "eyj"@)
}

/// The characters of `s` that are no control characters.
pub open spec fn visible(s: Seq<char>) -> Seq<char>
    decreases s.len(),
{
    if s.len() == 0 {
        s
    } else if control(s.last()) {
        visible(s.drop_last())
    } else {
        visible(s.drop_last()).push(s.last())
    }
}

/// What is logged of a word: no address of a page, no control characters, and at most
/// 2048 characters.
pub open spec fn clean_word(w: Seq<char>) -> Seq<char> {
    if holds(w, "://"@) {
        "[URL omitted]"@
    } else {
        first_chars(visible(w), 2048)
    }
}

/// What is logged of each word.
pub open spec fn clean_words(w: Seq<Seq<char>>) -> Seq<Seq<char>> {
    Seq::new(w.len(), |i: int| clean_word(w[i]))
}

/// What is logged of a text: nothing that may hold a secret, and else its words with
/// single spaces between them, up to 8192 characters.
pub open spec fn sanitized(s: Seq<char>) -> Seq<char> {
    if secret(lowered(s)) {
        "[credential-bearing output omitted]"@
    } else {
        first_chars(joined(clean_words(words(s)), " "@), 8192)
    }
}

fn drop_control(s: &str) -> (r: String)
    ensures
        r@ == visible(s@),
{
    let v = chars(s);
    let mut r = String::new();
    let mut i: usize = 0;
    assert(s@.take(0) =~= Seq::<char>::empty());
    while i < v.len()
        invariant
            v@ == s@,
            i <= v@.len(),
            r@ == visible(s@.take(i as int)),
        decreases v@.len() - i,
    {
        proof {
            assert(s@.take(i + 1).drop_last() =~= s@.take(i as int));
            assert(s@.take(i + 1).last() == v@[i as int]);
        }
        if !is_control(v[i]) {
            r.push(v[i]);
        }
        i = i + 1;
    }
    assert(s@.take(i as int) =~= s@);
    r
}

/// What is logged of a text.
pub fn sanitize(text: &str) -> (r: String)
    ensures
        r@ == sanitized(text@),
{
    let lower = to_lower(text);
    let l = lower.as_str();
    if contains(l, "token") || contains(l, "authorization") || contains(l, "password") || contains(
        l,
        "secret",
    ) || contains(l, "credential") || contains(l, "eyj") {
        return "[credential-bearing output omitted]".to_owned();
    }
    let all = split_words(text);
    let mut out: Vec<String> = Vec::new();
    let mut i: usize = 0;
    while i < all.len()
        invariant
            i <= all@.len(),
            out@.len() == i,
            forall|k: int| 0 <= k < i ==> (#[trigger] out@[k])@ == clean_word(all@[k]@),
        decreases all@.len() - i,
    {
        let word = all[i].as_str();
        if contains(word, "://") {
            out.push("[URL omitted]".to_owned());
        } else {
            out.push(take_chars(drop_control(word).as_str(), 2048));
        }
        i = i + 1;
    }
    assert(texts(out@) =~= clean_words(words(text@)));
    take_chars(join(&out, " ").as_str(), 8192)
}

proof fn visible_has_no_control(s: Seq<char>)
    ensures
        forall|i: int| 0 <= i < visible(s).len() ==> !control(#[trigger] visible(s)[i]),
    decreases s.len(),
{
    if s.len() > 0 {
        let front = visible(s.drop_last());
        visible_has_no_control(s.drop_last());
        assert forall|i: int| 0 <= i < visible(s).len() implies !control(
            #[trigger] visible(s)[i],
        ) by {
            if i < front.len() {
                assert(visible(s)[i] == front[i]);
            }
        }
    }
}

proof fn joined_has_no_control(parts: Seq<Seq<char>>, sep: Seq<char>)
    requires
        forall|i: int, j: int|
            0 <= i < parts.len() && 0 <= j < parts[i].len() ==> !control(#[trigger] parts[i][j]),
        forall|j: int| 0 <= j < sep.len() ==> !control(#[trigger] sep[j]),
    ensures
        forall|k: int|
            0 <= k < joined(parts, sep).len() ==> !control(#[trigger] joined(parts, sep)[k]),
{
    assert forall|k: int| 0 <= k < joined(parts, sep).len() implies !control(
        #[trigger] joined(parts, sep)[k],
    ) by {
        joined_chars(parts, sep, k);
    }
}

/// What is logged of any text is one line of at most 8192 characters without control
/// characters.
pub proof fn sanitized_is_one_line(s: Seq<char>)
    ensures
        sanitized(s).len() <= 8192,
        forall|i: int| 0 <= i < sanitized(s).len() ==> !control(#[trigger] sanitized(s)[i]),
{
    reveal_strlit("[credential-bearing output omitted]");
    reveal_strlit("[URL omitted]");
    reveal_strlit(" ");
    if !secret(lowered(s)) {
        let parts = clean_words(words(s));
        assert forall|i: int, j: int|
            0 <= i < parts.len() && 0 <= j < parts[i].len() implies !control(
            #[trigger] parts[i][j],
        ) by {
            visible_has_no_control(words(s)[i]);
        }
        joined_has_no_control(parts, " "@);
    }
}

/// Words are pieces of the text without white space.
proof fn words_are_pieces(s: Seq<char>, k: int) -> (at: (int, int))
    requires
        0 <= k < words(s).len(),
    ensures
        0 <= at.0 <= at.1 <= s.len(),
        words(s)[k] == s.subrange(at.0, at.1),
        forall|j: int| 0 <= j < words(s)[k].len() ==> !white(#[trigger] words(s)[k][j]),
    decreases s.len(),
{
    next_bounds(s, 0);
    let a = next_black(s, 0);
    next_bounds(s, a);
    let b = next_white(s, a);
    if k == 0 {
        let w = words(s)[0];
        assert(w == s.subrange(a, b));
        assert forall|j: int| 0 <= j < w.len() implies !white(#[trigger] w[j]) by {
            assert(w[j] == s[a + j]);
        }
        (a, b)
    } else {
        let rest = words_are_pieces(s.skip(b), k - 1);
        assert(words(s)[k] == words(s.skip(b))[k - 1]);
        assert(s.skip(b).subrange(rest.0, rest.1) =~= s.subrange(b + rest.0, b + rest.1));
        (b + rest.0, b + rest.1)
    }
}

proof fn all_visible(s: Seq<char>)
    requires
        forall|i: int| 0 <= i < s.len() ==> !control(#[trigger] s[i]),
    ensures
        visible(s) == s,
    decreases s.len(),
{
    if s.len() > 0 {
        let front = s.drop_last();
        assert forall|i: int| 0 <= i < front.len() implies !control(#[trigger] front[i]) by {
            assert(front[i] == s[i]);
        }
        all_visible(front);
        assert(s.last() == s[s.len() - 1]);
        assert(visible(s) =~= s);
    }
}

/// What stands in a piece of a text stands in the text.
proof fn held_by_the_whole(s: Seq<char>, a: int, b: int, p: Seq<char>)
    requires
        0 <= a <= b <= s.len(),
        holds(s.subrange(a, b), p),
    ensures
        holds(s, p),
{
    let i = choose|i: int| stands_at(s.subrange(a, b), p, i);
    assert(s.subrange(a, b).subrange(i, i + p.len()) =~= s.subrange(a + i, a + i + p.len()));
    assert(stands_at(s, p, a + i));
}

/// A text that stands in another brings its characters along.
proof fn held_characters(s: Seq<char>, p: Seq<char>, j: int) -> (k: int)
    requires
        holds(s, p),
        0 <= j < p.len(),
    ensures
        0 <= k < s.len(),
        s[k] == p[j],
{
    let i = choose|i: int| stands_at(s, p, i);
    assert(s.subrange(i, i + p.len())[j] == s[i + j]);
    i + j
}

/// A text without a space that stands in parts joined by spaces stands in one of them.
proof fn held_by_a_part(parts: Seq<Seq<char>>, p: Seq<char>)
    requires
        p.len() > 0,
        forall|j: int| 0 <= j < p.len() ==> #[trigger] p[j] != ' ',
        holds(lowered(joined(parts, seq![' '])), p),
    ensures
        exists|k: int| 0 <= k < parts.len() && holds(lowered(#[trigger] parts[k]), p),
    decreases parts.len(),
{
    let sep = seq![' '];
    let t = lowered(joined(parts, sep));
    if parts.len() == 0 {
        held_characters(t, p, 0);
    } else if parts.len() == 1 {
        assert(holds(lowered(parts[0]), p));
    } else {
        let front = joined(parts.drop_last(), sep);
        let n = front.len() as int;
        let i = choose|i: int| stands_at(t, p, i);
        let m = i + p.len();
        if m <= n {
            assert(lowered(front).subrange(i, m) =~= t.subrange(i, m));
            assert(stands_at(lowered(front), p, i));
            held_by_a_part(parts.drop_last(), p);
            let k = choose|k: int|
                0 <= k < parts.drop_last().len() && holds(
                    lowered(#[trigger] parts.drop_last()[k]),
                    p,
                );
            assert(parts[k] == parts.drop_last()[k]);
        } else if i > n {
            let last = parts[parts.len() - 1];
            assert(lowered(last).subrange(i - n - 1, m - n - 1) =~= t.subrange(i, m));
            assert(stands_at(lowered(last), p, i - n - 1));
            assert(holds(lowered(parts[parts.len() - 1]), p));
        } else {
            assert(t[n] == ' ');
            assert(t.subrange(i, m)[n - i] == t[n]);
            assert(p[n - i] == ' ');
        }
    }
}

/// What the parts do not hold, what is logged of them does not hold.
proof fn joined_holds_no_more(parts: Seq<Seq<char>>, p: Seq<char>)
    requires
        p.len() > 0,
        forall|j: int| 0 <= j < p.len() ==> #[trigger] p[j] != ' ',
        forall|k: int| 0 <= k < parts.len() ==> !holds(lowered(#[trigger] parts[k]), p),
    ensures
        !holds(lowered(first_chars(joined(parts, seq![' ']), 8192)), p),
{
    let all = joined(parts, seq![' ']);
    let t = first_chars(all, 8192);
    if holds(lowered(t), p) {
        assert(lowered(t) =~= lowered(all).subrange(0, t.len() as int));
        held_by_the_whole(lowered(all), 0, t.len() as int, p);
        held_by_a_part(parts, p);
    }
}

/// What is logged of a word does not hold what the word does not hold, but for the note about
/// an address.
proof fn word_holds_no_more(s: Seq<char>, k: int, p: Seq<char>, j: int)
    requires
        0 <= k < words(s).len(),
        forall|i: int| 0 <= i < s.len() && control(#[trigger] s[i]) ==> white(s[i]),
        0 <= j < p.len(),
        !lowered("[URL omitted]"@).contains(p[j]),
        holds(words(s)[k], "://"@) || !holds(lowered(words(s)[k]), p),
    ensures
        !holds(lowered(clean_word(words(s)[k])), p),
{
    let w = words(s)[k];
    let at = words_are_pieces(s, k);
    if holds(w, "://"@) {
        if holds(lowered("[URL omitted]"@), p) {
            held_characters(lowered("[URL omitted]"@), p, j);
        }
    } else {
        assert forall|i: int| 0 <= i < w.len() implies !control(#[trigger] w[i]) by {
            assert(w[i] == s[at.0 + i]);
        }
        all_visible(w);
        let t = first_chars(w, 2048);
        if holds(lowered(t), p) {
            assert(lowered(t) =~= lowered(w).subrange(0, t.len() as int));
            held_by_the_whole(lowered(w), 0, t.len() as int, p);
        }
    }
}

/// Nothing of what is logged holds a word that the text does not hold.
proof fn log_holds_no_more(s: Seq<char>, p: Seq<char>, j: int)
    requires
        forall|i: int| 0 <= i < s.len() && control(#[trigger] s[i]) ==> white(s[i]),
        0 <= j < p.len(),
        forall|i: int| 0 <= i < p.len() ==> #[trigger] p[i] != ' ',
        !lowered("[URL omitted]"@).contains(p[j]),
        !holds(lowered(s), p),
    ensures
        !holds(lowered(first_chars(joined(clean_words(words(s)), seq![' ']), 8192)), p),
{
    let parts = clean_words(words(s));
    assert forall|k: int| 0 <= k < parts.len() implies !holds(lowered(#[trigger] parts[k]), p) by {
        let w = words(s)[k];
        let at = words_are_pieces(s, k);
        if holds(lowered(w), p) {
            assert(lowered(w) =~= lowered(s).subrange(at.0, at.1));
            held_by_the_whole(lowered(s), at.0, at.1, p);
        }
        word_holds_no_more(s, k, p, j);
    }
    joined_holds_no_more(parts, p);
}

/// What is logged of a text whose control characters are all white space holds no address of a
/// page. Where the text holds no word that may go with a secret, neither does what is logged of
/// it, in any mix of capitals and small letters; where it does, only a note is logged.
pub proof fn secrets_are_not_logged(s: Seq<char>)
    requires
        forall|i: int| 0 <= i < s.len() && control(#[trigger] s[i]) ==> white(s[i]),
    ensures
        !holds(sanitized(s), "://"@),
        !secret(lowered(s)) ==> !secret(lowered(sanitized(s))),
        secret(lowered(s)) ==> sanitized(s) == "[credential-bearing output omitted]"@,
{
    reveal_strlit("://");
    reveal_strlit("[credential-bearing output omitted]");
    reveal_strlit("[URL omitted]");
    reveal_strlit(" ");
    assert(" "@ =~= seq![' ']);
    let notice = "[credential-bearing output omitted]"@;
    let note = lowered("[URL omitted]"@);
    if secret(lowered(s)) {
        if holds(notice, "://"@) {
            let k = held_characters(notice, "://"@, 0);
            assert(notice[k] == ':');
        }
    } else {
        reveal_strlit("token");
        reveal_strlit("authorization");
        reveal_strlit("password");
        reveal_strlit("secret");
        reveal_strlit("credential");
        reveal_strlit("eyj");
        assert forall|i: int| 0 <= i < note.len() implies #[trigger] note[i] != 'k' && note[i] != 'a'
            && note[i] != 'p' && note[i] != 's' && note[i] != 'c' && note[i] != 'y' && note[i]
            != ':' by {
            assert(note[i] == lower("[URL omitted]"@[i]));
        }
        log_holds_no_more(s, "token"@, 2);
        log_holds_no_more(s, "authorization"@, 0);
        log_holds_no_more(s, "password"@, 0);
        log_holds_no_more(s, "secret"@, 0);
        log_holds_no_more(s, "credential"@, 0);
        log_holds_no_more(s, "eyj"@, 1);
        let parts = clean_words(words(s));
        let p = "://"@;
        assert forall|k: int| 0 <= k < parts.len() implies !holds(
            lowered(#[trigger] parts[k]),
            p,
        ) by {
            let w = words(s)[k];
            if holds(lowered(w), p) {
                let i = choose|i: int| stands_at(lowered(w), p, i);
                let t = lowered(w).subrange(i, i + 3);
                assert(t[0] == lower(w[i]) && t[1] == lower(w[i + 1]) && t[2] == lower(w[i + 2]));
                assert(w.subrange(i, i + 3) =~= p);
                assert(stands_at(w, p, i));
            }
            word_holds_no_more(s, k, p, 0);
        }
        joined_holds_no_more(parts, p);
        let out = sanitized(s);
        if holds(out, p) {
            let i = choose|i: int| stands_at(out, p, i);
            let t = out.subrange(i, i + 3);
            assert(t[0] == out[i] && t[1] == out[i + 1] && t[2] == out[i + 2]);
            assert(lowered(out).subrange(i, i + 3) =~= p);
            assert(stands_at(lowered(out), p, i));
        }
    }
}

/// The name that the files of a role begin with.
pub open spec fn role_prefix(role: Seq<char>) -> Option<Seq<char>> {
    if role == "host"@ {
        Some("devtunnel"@)
    } else if role == "client"@ {
        Some("devtunnel-client"@)
    } else {
        None
    }
}

/// The name that the files of a role begin with: `host` or `client`.
pub fn log_prefix(role: &str) -> (r: Result<String, String>)
    ensures
        r is Ok <==> role_prefix(role@) is Some,
        r matches Ok(p) ==> role_prefix(role@) == Some(p@),
        r matches Err(m) ==> m@ == "unknown tunnel log role"@,
{
    if same(role, "host") {
        Ok("devtunnel".to_owned())
    } else if same(role, "client") {
        Ok("devtunnel-client".to_owned())
    } else {
        Err("unknown tunnel log role".to_owned())
    }
}

/// The log of one role.
#[derive(Debug)]
pub struct Log {
    /// The name that its files begin with.
    pub prefix: String,
}

/// One entry of a log: the lock to hold while it is written, the file to put it behind,
/// and its line.
#[derive(Debug)]
pub struct LogEntry {
    pub lock: String,
    pub file: String,
    pub line: String,
}

/// The line of a log entry.
pub open spec fn entry_line(
    now: u64,
    command: Seq<char>,
    stream: Seq<char>,
    text: Seq<char>,
) -> Seq<char> {
    digits(now as nat) + " ["@ + sanitized(command) + "] ["@ + sanitized(stream) + "] "@
        + sanitized(text) + "\n"@
}

impl Log {
    /// The log of a role.
    pub fn new(role: &str) -> (r: Result<Log, String>)
        ensures
            r is Ok <==> role_prefix(role@) is Some,
            r matches Ok(log) ==> role_prefix(role@) == Some(log.prefix@),
            r matches Err(m) ==> m@ == "unknown tunnel log role"@,
    {
        match log_prefix(role) {
            Ok(prefix) => Ok(Log { prefix }),
            Err(m) => Err(m),
        }
    }

    /// What to write for `text`, which a command gave on a stream at the time `now`, in
    /// seconds since 1970.
    pub fn write(&self, now: u64, command: &str, stream: &str, text: &str) -> (r: LogEntry)
        requires
            now < 253_402_300_800,
        ensures
            r.lock@ == self.prefix@ + ".lock"@,
            calendar_date((now / 86400 * 86400) as i64) matches Some(d) && r.file@ == self.prefix@
                + "."@ + d + ".log"@,
            r.line@ == entry_line(now, command@, stream@, text@),
    {
        let mut lock = self.prefix.clone();
        lock.append(".lock");
        let mut file = self.prefix.clone();
        file.append(".");
        file.append(date(now / 86400).as_str());
        file.append(".log");
        let mut line = decimal(now);
        line.append(" [");
        line.append(sanitize(command).as_str());
        line.append("] [");
        line.append(sanitize(stream).as_str());
        line.append("] ");
        line.append(sanitize(text).as_str());
        line.append("\n");
        LogEntry { lock, file, line }
    }
}

/// Whether a file is one of the log files that begin with `prefix`.
pub open spec fn log_name(name: Seq<char>, prefix: Seq<char>) -> bool {
    begins(name, prefix + "."@) && ends(name, ".log"@)
}

/// The log files among `names`, in the order in which they are found.
pub open spec fn log_names(names: Seq<Seq<char>>, prefix: Seq<char>) -> Seq<Seq<char>>
    decreases names.len(),
{
    if names.len() == 0 {
        names
    } else if log_name(names.last(), prefix) {
        log_names(names.drop_last(), prefix).push(names.last())
    } else {
        log_names(names.drop_last(), prefix)
    }
}

/// The log files among `names` from the oldest to the newest.
pub open spec fn log_files(names: Seq<Seq<char>>, prefix: Seq<char>) -> Seq<Seq<char>> {
    sorted(log_names(names, prefix))
}

/// How many files of each role are kept.
pub const KEPT_FILES: usize = 7;

/// The log files that are too many: all but the newest seven.
pub open spec fn excess_files(names: Seq<Seq<char>>, prefix: Seq<char>) -> Seq<Seq<char>> {
    let files = log_files(names, prefix);
    if files.len() <= KEPT_FILES {
        Seq::empty()
    } else {
        files.take(files.len() - KEPT_FILES)
    }
}

fn list_files(names: &Vec<String>, prefix: &str) -> (r: Vec<String>)
    ensures
        texts(r@) == log_files(texts(names@), prefix@),
{
    let mut start = prefix.to_owned();
    start.append(".");
    let ghost all = texts(names@);
    let mut found: Vec<String> = Vec::new();
    let mut i: usize = 0;
    assert(all.take(0) =~= Seq::<Seq<char>>::empty());
    assert(texts(found@) =~= Seq::<Seq<char>>::empty());
    while i < names.len()
        invariant
            all == texts(names@),
            start@ == prefix@ + "."@,
            i <= names@.len(),
            texts(found@) == log_names(all.take(i as int), prefix@),
        decreases names@.len() - i,
    {
        let name = names[i].as_str();
        let ghost before = found@;
        proof {
            assert(all.take(i + 1).drop_last() =~= all.take(i as int));
            assert(all.take(i + 1).last() == name@);
        }
        if starts_with(name, start.as_str()) && ends_with(name, ".log") {
            found.push(name.to_owned());
            assert(texts(found@) =~= texts(before).push(name@));
        }
        i = i + 1;
    }
    assert(all.take(i as int) =~= all);
    sort_texts(found)
}

/// The log files among `names` to remove, so that the newest seven are left.
pub fn files_to_prune(names: &Vec<String>, prefix: &str) -> (r: Vec<String>)
    ensures
        texts(r@) == excess_files(texts(names@), prefix@),
{
    let mut files = list_files(names, prefix);
    let ghost all = texts(files@);
    let n: usize = if files.len() <= KEPT_FILES {
        0
    } else {
        files.len() - KEPT_FILES
    };
    files.truncate(n);
    assert(texts(files@) =~= excess_files(texts(names@), prefix@));
    files
}

proof fn log_names_are_logs(names: Seq<Seq<char>>, prefix: Seq<char>)
    ensures
        forall|i: int|
            0 <= i < log_names(names, prefix).len() ==> log_name(
                #[trigger] log_names(names, prefix)[i],
                prefix,
            ),
    decreases names.len(),
{
    if names.len() > 0 {
        let front = log_names(names.drop_last(), prefix);
        log_names_are_logs(names.drop_last(), prefix);
        assert forall|i: int| 0 <= i < log_names(names, prefix).len() implies log_name(
            #[trigger] log_names(names, prefix)[i],
            prefix,
        ) by {
            if i < front.len() {
                assert(log_names(names, prefix)[i] == front[i]);
            }
        }
    }
}

/// Seven log files of a role are left, or all of them where there are fewer; only log
/// files of the role are removed; and no file that is left is older than one that is
/// removed.
pub proof fn newest_files_are_kept(names: Seq<Seq<char>>, prefix: Seq<char>)
    ensures
        ({
            let files = log_files(names, prefix);
            let gone = excess_files(names, prefix);
            &&& files.to_multiset() == log_names(names, prefix).to_multiset()
            &&& files.len() <= KEPT_FILES ==> gone.len() == 0
            &&& files.len() > KEPT_FILES ==> files.len() - gone.len() == KEPT_FILES
            &&& gone == files.take(gone.len() as int)
            &&& forall|i: int| 0 <= i < gone.len() ==> log_name(#[trigger] gone[i], prefix)
            &&& forall|i: int, k: int|
                0 <= i < gone.len() <= k < files.len() ==> !precedes(
                    #[trigger] files[k],
                    #[trigger] gone[i],
                )
        }),
{
    broadcast use group_to_multiset_ensures;

    let found = log_names(names, prefix);
    let files = log_files(names, prefix);
    let gone = excess_files(names, prefix);
    sorted_is_in_order(found);
    log_names_are_logs(names, prefix);
    assert(gone =~= files.take(gone.len() as int));
    assert forall|i: int| 0 <= i < gone.len() implies log_name(#[trigger] gone[i], prefix) by {
        assert(files.to_multiset().count(files[i]) > 0);
        assert(found.contains(files[i]));
    }
}

/// No file is a log file of both roles.
pub proof fn roles_are_apart(name: Seq<char>)
    ensures
        !(log_name(name, "devtunnel"@) && log_name(name, "devtunnel-client"@)),
{
    reveal_strlit("devtunnel");
    reveal_strlit("devtunnel-client");
    reveal_strlit(".");
    let p = "devtunnel"@ + "."@;
    let q = "devtunnel-client"@ + "."@;
    assert(p[9] == '.');
    assert(q[9] == '-');
    if begins(name, p) && begins(name, q) {
        assert(name[9] == p[9]);
        assert(name[9] == q[9]);
    }
}

/// The newest log file among `names`.
pub open spec fn newest(names: Seq<Seq<char>>, prefix: Seq<char>) -> Option<Seq<char>> {
    let files = log_files(names, prefix);
    if files.len() == 0 {
        None
    } else {
        Some(files.last())
    }
}

/// The newest log file among `names`.
pub fn latest_log(names: &Vec<String>, prefix: &str) -> (r: Option<String>)
    ensures
        option_text(r) == newest(texts(names@), prefix@),
{
    let files = list_files(names, prefix);
    assert(texts(files@).len() == files@.len());
    if files.len() == 0 {
        None
    } else {
        Some(files[files.len() - 1].clone())
    }
}

/// Where to go on reading a log that was read up to `offset` of the file `current`: at
/// the start of a file that is another one or has become shorter.
pub open spec fn resume_at(
    current: Option<Seq<char>>,
    offset: u64,
    file: Seq<char>,
    len: u64,
) -> u64 {
    if current != Some(file) || len < offset {
        0
    } else {
        offset
    }
}

/// Where to go on reading a log that was read up to `offset` of the file `current`,
/// where `file` is the newest and holds `len` bytes.
pub fn resume_offset(current: &Option<String>, offset: u64, file: &str, len: u64) -> (r: u64)
    ensures
        r == resume_at(option_text(*current), offset, file@, len),
        r <= len || r == 0,
{
    match current {
        Some(c) => if same(c.as_str(), file) && len >= offset {
            offset
        } else {
            0
        },
        None => 0,
    }
}

/// The state directory: the one the environment gives, or else `.sshdt` in the home
/// directory, or else in the current one.
pub open spec fn state_path(
    style: PathStyle,
    given: Option<Seq<char>>,
    home: Option<Seq<char>>,
) -> Seq<char> {
    match (given, home) {
        (Some(d), _) => d,
        (None, Some(h)) => placed(style, h, ".sshdt"@),
        (None, None) => placed(style, "."@, ".sshdt"@),
    }
}

/// The state directory, from the value of `SSHDT_STATE_DIR` and the home directory.
pub fn state_dir(style: PathStyle, given: Option<String>, home: Option<String>) -> (r: String)
    ensures
        r@ == state_path(style, option_text(given), option_text(home)),
{
    match given {
        Some(d) => d,
        None => match home {
            Some(h) => join_path(style, h.as_str(), ".sshdt"),
            None => join_path(style, ".", ".sshdt"),
        },
    }
}

/// The files of the host begin with `devtunnel` and those of the client with
/// `devtunnel-client`. There are no other roles.
pub proof fn which_roles_have_logs(role: Seq<char>)
    ensures
        role_prefix("host"@) == Some("devtunnel"@),
        role_prefix("client"@) == Some("devtunnel-client"@),
        role != "host"@ && role != "client"@ ==> role_prefix(role) is None,
{
    reveal_strlit("host");
    reveal_strlit("client");
    assert("host"@.len() == 4 && "client"@.len() == 6);
}

proof fn held_between(a: Seq<char>, p: Seq<char>, b: Seq<char>)
    ensures
        holds(a + p + b, p),
{
    let s = a + p + b;
    let i = a.len() as int;
    assert(s.subrange(i, i + p.len()) =~= p);
    assert(stands_at(s, p, i));
}

/// A text with one of six words in it, wherever it stands, may hold a secret, and no other text
/// may.
pub proof fn which_texts_may_hold_secrets(a: Seq<char>, b: Seq<char>, s: Seq<char>)
    ensures
        secret(a + "token"@ + b),
        secret(a + "authorization"@ + b),
        secret(a + "password"@ + b),
        secret(a + "secret"@ + b),
        secret(a + "credential"@ + b),
        secret(a + "eyj"@ + b),
        secret(s) ==> holds(s, "token"@) || holds(s, "authorization"@) || holds(s, "password"@)
            || holds(s, "secret"@) || holds(s, "credential"@) || holds(s, "eyj"@),
{
    held_between(a, "token"@, b);
    held_between(a, "authorization"@, b);
    held_between(a, "password"@, b);
    held_between(a, "secret"@, b);
    held_between(a, "credential"@, b);
    held_between(a, "eyj"@, b);
}

proof fn visible_of_both(a: Seq<char>, b: Seq<char>)
    ensures
        visible(a + b) == visible(a) + visible(b),
    decreases b.len(),
{
    if b.len() == 0 {
        assert(a + b =~= a);
        assert(visible(a) + visible(b) =~= visible(a));
    } else {
        visible_of_both(a, b.drop_last());
        assert((a + b).drop_last() =~= a + b.drop_last());
        assert((a + b).last() == b.last());
        assert(visible(a + b) =~= visible(a) + visible(b));
    }
}

/// Control characters are left out of a text, and every other character is kept in its place.
pub proof fn control_characters_are_left_out(a: Seq<char>, c: char, b: Seq<char>)
    ensures
        control(c) ==> visible(a + seq![c] + b) == visible(a) + visible(b),
        !control(c) ==> visible(a + seq![c] + b) == visible(a) + seq![c] + visible(b),
        visible(Seq::empty()) == Seq::<char>::empty(),
{
    let one = seq![c];
    visible_of_both(a + one, b);
    visible_of_both(a, one);
    assert(one.drop_last() =~= Seq::<char>::empty());
    assert(visible(Seq::<char>::empty()) =~= Seq::<char>::empty());
    if control(c) {
        assert(visible(a) + visible(one) =~= visible(a));
    } else {
        assert(visible(one) =~= one);
    }
}

/// A word without the address of a page and without control characters is logged as it is, up to
/// 2048 characters. Of an address only that it was there is.
pub proof fn what_is_logged_of_words(w: Seq<char>)
    ensures
        !holds(w, "://"@) && w.len() <= 2048 && (forall|i: int|
            0 <= i < w.len() ==> !control(#[trigger] w[i])) ==> clean_word(w) == w,
        !holds(w, "://"@) && w.len() > 2048 && (forall|i: int|
            0 <= i < w.len() ==> !control(#[trigger] w[i])) ==> clean_word(w) == w.take(2048),
        holds(w, "://"@) ==> clean_word(w) == "[URL omitted]"@,
{
    if forall|i: int| 0 <= i < w.len() ==> !control(#[trigger] w[i]) {
        all_visible(w);
    }
}

/// A text that may hold no secret is logged with all its words, in their order and with one space
/// between each two, up to 8192 characters.
pub proof fn what_is_logged_of_texts(s: Seq<char>)
    requires
        !secret(lowered(s)),
        forall|k: int|
            0 <= k < words(s).len() ==> !holds(#[trigger] words(s)[k], "://"@) && words(s)[k].len()
                <= 2048,
        forall|i: int| 0 <= i < s.len() && control(#[trigger] s[i]) ==> white(s[i]),
    ensures
        joined(words(s), seq![' ']).len() <= 8192 ==> sanitized(s) == joined(words(s), seq![' ']),
        joined(words(s), seq![' ']).len() > 8192 ==> sanitized(s) == joined(
            words(s),
            seq![' '],
        ).take(8192),
{
    reveal_strlit(" ");
    assert(" "@ =~= seq![' ']);
    let all = words(s);
    assert forall|k: int| 0 <= k < all.len() implies clean_word(#[trigger] all[k]) == all[k] by {
        let w = all[k];
        let at = words_are_pieces(s, k);
        assert forall|i: int| 0 <= i < w.len() implies !control(#[trigger] w[i]) by {
            assert(w[i] == s[at.0 + i]);
        }
        what_is_logged_of_words(w);
    }
    assert(clean_words(all) =~= all);
}

/// The words of a text that may hold no secret are logged one by one.
pub proof fn words_are_logged_one_by_one(all: Seq<Seq<char>>, i: int)
    requires
        0 <= i < all.len(),
    ensures
        clean_words(all).len() == all.len(),
        clean_words(all)[i] == clean_word(all[i]),
{
}

/// A line of the log has the time, the command, the stream and the text, each without secrets.
pub proof fn what_lines_of_the_log_hold(
    now: u64,
    command: Seq<char>,
    stream: Seq<char>,
    text: Seq<char>,
)
    ensures
        entry_line(now, command, stream, text) == digits(now as nat) + " ["@ + sanitized(command)
            + "] ["@ + sanitized(stream) + "] "@ + sanitized(text) + "\n"@,
{
}

/// Every file whose name is that of the role, a dot, and something that ends with `.log` is one
/// of its log files, and no other.
pub proof fn which_files_are_log_files(prefix: Seq<char>, middle: Seq<char>, name: Seq<char>)
    ensures
        log_name(prefix + "."@ + middle + ".log"@, prefix),
        log_name(name, prefix) <==> begins(name, prefix + "."@) && ends(name, ".log"@),
{
    let s = prefix + "."@ + middle + ".log"@;
    let p = prefix + "."@;
    let b = ".log"@;
    assert(s.subrange(0, p.len() as int) =~= p);
    assert(s.subrange(s.len() - b.len(), s.len() as int) =~= b);
}

proof fn log_names_of_both(a: Seq<Seq<char>>, b: Seq<Seq<char>>, prefix: Seq<char>)
    ensures
        log_names(a + b, prefix) == log_names(a, prefix) + log_names(b, prefix),
    decreases b.len(),
{
    if b.len() == 0 {
        assert(a + b =~= a);
        assert(log_names(a, prefix) + log_names(b, prefix) =~= log_names(a, prefix));
    } else {
        log_names_of_both(a, b.drop_last(), prefix);
        assert((a + b).drop_last() =~= a + b.drop_last());
        assert((a + b).last() == b.last());
        assert(log_names(a + b, prefix) =~= log_names(a, prefix) + log_names(b, prefix));
    }
}

/// Every log file of a role is found, wherever it stands among other files.
pub proof fn every_log_file_is_found(
    a: Seq<Seq<char>>,
    name: Seq<char>,
    b: Seq<Seq<char>>,
    prefix: Seq<char>,
)
    ensures
        log_name(name, prefix) ==> log_names(a + seq![name] + b, prefix) == log_names(a, prefix)
            + seq![name] + log_names(b, prefix),
        !log_name(name, prefix) ==> log_names(a + seq![name] + b, prefix) == log_names(a, prefix)
            + log_names(b, prefix),
        log_names(Seq::empty(), prefix) == Seq::<Seq<char>>::empty(),
{
    let one = seq![name];
    log_names_of_both(a + one, b, prefix);
    log_names_of_both(a, one, prefix);
    assert(one.drop_last() =~= Seq::<Seq<char>>::empty());
    assert(log_names(Seq::<Seq<char>>::empty(), prefix) =~= Seq::<Seq<char>>::empty());
    if log_name(name, prefix) {
        assert(log_names(one, prefix) =~= one);
    } else {
        assert(log_names(a, prefix) + log_names(one, prefix) =~= log_names(a, prefix));
    }
}

/// The newest log file is one of those that are found, and none that is found stands behind it.
/// Seven files are kept.
pub proof fn the_newest_log_file_is_the_last(names: Seq<Seq<char>>, prefix: Seq<char>, i: int)
    requires
        0 <= i < log_names(names, prefix).len(),
    ensures
        newest(names, prefix) matches Some(name) && log_names(names, prefix).contains(name)
            && !precedes(name, log_names(names, prefix)[i]),
        KEPT_FILES == 7,
{
    broadcast use group_to_multiset_ensures;

    let found = log_names(names, prefix);
    let files = log_files(names, prefix);
    sorted_is_in_order(found);
    assert(files.len() > 0);
    let last = files[files.len() - 1];
    assert(files.to_multiset().count(last) > 0);
    assert(found.contains(last));
    assert(found.to_multiset().count(found[i]) > 0);
    assert(files.contains(found[i]));
    let k = choose|k: int| 0 <= k < files.len() && files[k] == found[i];
    if k == files.len() - 1 {
        precedes_not_itself(last);
    } else {
        assert(!precedes(files[files.len() - 1], files[k]));
    }
}

proof fn precedes_not_itself(s: Seq<char>)
    ensures
        !precedes(s, s),
{
    the_first_difference_decides(s, 'a', 'b', s, s);
}

/// Reading a log goes on where it stopped, unless another file is the newest or the file has
/// become shorter.
pub proof fn where_reading_goes_on(file: Seq<char>, offset: u64, len: u64, other: Option<Seq<char>>)
    ensures
        len >= offset ==> resume_at(Some(file), offset, file, len) == offset,
        len < offset ==> resume_at(Some(file), offset, file, len) == 0,
        other != Some(file) ==> resume_at(other, offset, file, len) == 0,
{
}

/// What the environment names is the state directory, else `.sshdt` in the home directory, and
/// else in the current one.
pub proof fn where_the_state_is(style: PathStyle, dir: Seq<char>, home: Option<Seq<char>>)
    ensures
        state_path(style, Some(dir), home) == dir,
        state_path(style, None, Some(dir)) == placed(style, dir, ".sshdt"@),
        state_path(style, None, None) == placed(style, "."@, ".sshdt"@),
{
}

} // verus!

//! The processes of the tunnel program: the lines that they write, and how they end.

use crate::text::{chars, option_text, text, texts};
use vstd::prelude::*;
use vstd::utf8::{decode_utf8, valid_utf8};

verus! {

/// What a process does.
#[derive(Debug)]
pub enum ProcessEvent {
    /// It wrote a line.
    Line { stream: &'static str, line: String },
    /// It ended.
    Exited { success: bool, code: Option<i32> },
}

/// The text that `String::from_utf8_lossy` makes of bytes.
pub uninterp spec fn lossy_text(bytes: Seq<u8>) -> Seq<char>;

/// `String::from_utf8_lossy`: the text depends on the bytes alone, and bytes that are
/// the encoding of a text give that text.
#[verifier::external_body]
pub(crate) fn from_utf8_lossy(bytes: &[u8]) -> (r: String)
    ensures
        r@ == lossy_text(bytes@),
        valid_utf8(bytes@) ==> r@ == decode_utf8(bytes@),
{
    String::from_utf8_lossy(bytes).into_owned()
}

/// The longest line that is kept, in bytes.
pub const LONGEST_LINE: usize = 65536;

/// The bytes of `s` between line feeds. The last piece is what follows the last line
/// feed.
pub open spec fn segments(s: Seq<u8>) -> Seq<Seq<u8>>
    decreases s.len(),
{
    if s.len() == 0 {
        seq![Seq::empty()]
    } else {
        let front = segments(s.drop_last());
        if s.last() == 10 {
            front.push(Seq::empty())
        } else {
            front.drop_last().push(front.last().push(s.last()))
        }
    }
}

/// `s` without carriage returns at its end.
pub open spec fn without_returns(s: Seq<char>) -> Seq<char>
    decreases s.len(),
{
    if s.len() > 0 && s.last() == '\r' {
        without_returns(s.drop_last())
    } else {
        s
    }
}

/// What stands for a line that is too long.
pub open spec fn omitted() -> Seq<char> {
    "[oversized output line omitted]"@
}

/// The text of a line that has ended.
pub open spec fn ended_line(bytes: Seq<u8>) -> Seq<char> {
    if bytes.len() > LONGEST_LINE {
        omitted()
    } else {
        without_returns(lossy_text(bytes))
    }
}

/// The text of what a stream ends with behind its last line feed.
pub open spec fn last_line(bytes: Seq<u8>) -> Option<Seq<char>> {
    if bytes.len() > LONGEST_LINE {
        Some(omitted())
    } else if bytes.len() > 0 {
        Some(lossy_text(bytes))
    } else {
        None
    }
}

/// The texts of the lines that have ended in `s`.
pub open spec fn ended_lines(s: Seq<u8>) -> Seq<Seq<char>> {
    let all = segments(s);
    Seq::new((all.len() - 1) as nat, |i: int| ended_line(all[i]))
}

/// What follows the last line feed of `s`.
pub open spec fn open_line(s: Seq<u8>) -> Seq<u8> {
    segments(s).last()
}

/// Puts the bytes of a stream together to lines.
pub struct LineReader {
    line: Vec<u8>,
    oversized: bool,
    pending: Ghost<Seq<u8>>,
}

fn trim_returns(s: String) -> (r: String)
    ensures
        r@ == without_returns(s@),
{
    let v = chars(s.as_str());
    let mut n: usize = v.len();
    assert(s@.take(n as int) =~= s@);
    while n > 0 && v[n - 1] == '\r'
        invariant
            v@ == s@,
            n <= v@.len(),
            without_returns(s@) == without_returns(s@.take(n as int)),
        decreases n,
    {
        assert(s@.take(n as int).drop_last() =~= s@.take(n - 1));
        n = n - 1;
    }
    assert(s@.subrange(0, n as int) =~= s@.take(n as int));
    text(&v, 0, n)
}

impl LineReader {
    /// The bytes since the last line feed.
    pub closed spec fn pending(self) -> Seq<u8> {
        self.pending@
    }

    /// Whether what is kept is the start of the line, up to the longest that is kept.
    /// The line holds no line feed.
    pub closed spec fn wf(self) -> bool {
        &&& forall|i: int| 0 <= i < self.pending@.len() ==> #[trigger] self.pending@[i] != 10
        &&& self.oversized == (self.pending@.len() > LONGEST_LINE)
        &&& self.line@ == (if self.pending@.len() > LONGEST_LINE {
            self.pending@.take(LONGEST_LINE as int)
        } else {
            self.pending@
        })
    }

    /// A reader at the start of a stream.
    pub fn new() -> (r: Self)
        ensures
            r.wf(),
            r.pending() == Seq::<u8>::empty(),
    {
        LineReader { line: Vec::new(), oversized: false, pending: Ghost(Seq::empty()) }
    }

    /// Takes the next byte of the stream, and gives the line that it ends.
    fn push(&mut self, byte: u8) -> (r: Option<String>)
        requires
            old(self).wf(),
        ensures
            final(self).wf(),
            byte == 10 ==> option_text(r) == Some(ended_line(old(self).pending()))
                && final(self).pending() == Seq::<u8>::empty(),
            byte != 10 ==> r is None && final(self).pending() == old(self).pending().push(byte),
    {
        if byte == 10 {
            let line = if self.oversized {
                "[oversized output line omitted]".to_owned()
            } else {
                trim_returns(from_utf8_lossy(self.line.as_slice()))
            };
            self.line = Vec::new();
            self.oversized = false;
            self.pending = Ghost(Seq::empty());
            Some(line)
        } else {
            let ghost before = self.pending@;
            if self.line.len() < LONGEST_LINE {
                self.line.push(byte);
            } else {
                self.oversized = true;
            }
            self.pending = Ghost(before.push(byte));
            proof {
                if before.len() >= LONGEST_LINE {
                    assert(before.push(byte).take(LONGEST_LINE as int) =~= self.line@);
                }
            }
            None
        }
    }

    /// Takes the next bytes of the stream, and gives the lines that end in them.
    pub fn feed(&mut self, chunk: &[u8]) -> (r: Vec<String>)
        requires
            old(self).wf(),
        ensures
            final(self).wf(),
            texts(r@) == ended_lines(old(self).pending() + chunk@),
            final(self).pending() == open_line(old(self).pending() + chunk@),
    {
        let mut out: Vec<String> = Vec::new();
        let ghost start = self.pending();
        let mut i: usize = 0;
        proof {
            one_segment(start);
            assert(start + chunk@.take(0) =~= start);
            assert(texts(out@) =~= ended_lines(start));
        }
        while i < chunk.len()
            invariant
                i <= chunk@.len(),
                self.wf(),
                texts(out@) == ended_lines(start + chunk@.take(i as int)),
                self.pending() == open_line(start + chunk@.take(i as int)),
            decreases chunk@.len() - i,
        {
            let ghost sofar = start + chunk@.take(i as int);
            let ghost before = out@;
            let byte = chunk[i];
            proof {
                segments_len(sofar);
                assert(start + chunk@.take(i + 1) =~= sofar.push(byte));
                assert(sofar.push(byte).drop_last() =~= sofar);
            }
            match self.push(byte) {
                Some(line) => {
                    out.push(line);
                    assert(texts(out@) =~= texts(before).push(ended_line(open_line(sofar))));
                    assert(texts(out@) =~= ended_lines(sofar.push(byte)));
                },
                None => {
                    assert(texts(out@) =~= ended_lines(sofar.push(byte)));
                },
            }
            i = i + 1;
        }
        assert(chunk@.take(i as int) =~= chunk@);
        out
    }

    /// Gives what the stream ended with behind its last line feed.
    pub fn finish(self) -> (r: Option<String>)
        requires
            self.wf(),
        ensures
            option_text(r) == last_line(self.pending()),
    {
        if self.oversized {
            Some("[oversized output line omitted]".to_owned())
        } else if self.line.len() > 0 {
            Some(from_utf8_lossy(self.line.as_slice()))
        } else {
            None
        }
    }
}

proof fn segments_len(s: Seq<u8>)
    ensures
        segments(s).len() > 0,
    decreases s.len(),
{
    if s.len() > 0 {
        segments_len(s.drop_last());
    }
}

/// Bytes without a line feed are one piece.
proof fn one_segment(s: Seq<u8>)
    requires
        forall|i: int| 0 <= i < s.len() ==> #[trigger] s[i] != 10,
    ensures
        segments(s) == seq![s],
    decreases s.len(),
{
    if s.len() > 0 {
        let front = s.drop_last();
        assert forall|i: int| 0 <= i < front.len() implies #[trigger] front[i] != 10 by {
            assert(front[i] == s[i]);
        }
        one_segment(front);
        assert(s[s.len() - 1] != 10);
        assert(segments(s) =~= seq![front.push(s.last())]);
        assert(front.push(s.last()) =~= s);
    } else {
        assert(segments(s)[0] =~= s);
        assert(segments(s) =~= seq![s]);
    }
}

/// What follows the last line feed holds none.
proof fn open_line_has_no_feed(s: Seq<u8>)
    ensures
        forall|i: int| 0 <= i < open_line(s).len() ==> #[trigger] open_line(s)[i] != 10,
    decreases s.len(),
{
    segments_len(s);
    if s.len() > 0 {
        segments_len(s.drop_last());
        open_line_has_no_feed(s.drop_last());
        let before = open_line(s.drop_last());
        assert forall|i: int| 0 <= i < open_line(s).len() implies #[trigger] open_line(s)[i]
            != 10 by {
            if s.last() != 10 && i < before.len() {
                assert(open_line(s)[i] == before[i]);
            }
        }
    }
}

/// Reading a stream in two steps: what is open after the first is read on in the
/// second.
proof fn segments_of_both(a: Seq<u8>, b: Seq<u8>)
    ensures
        segments(a + b) == segments(a).drop_last() + segments(open_line(a) + b),
    decreases b.len(),
{
    segments_len(a);
    if b.len() == 0 {
        assert(a + b =~= a);
        assert(open_line(a) + b =~= open_line(a));
        open_line_has_no_feed(a);
        one_segment(open_line(a));
        assert(segments(a) =~= segments(a).drop_last() + seq![open_line(a)]);
    } else {
        let c = b.drop_last();
        segments_of_both(a, c);
        segments_len(open_line(a) + c);
        assert((a + b).drop_last() =~= a + c);
        assert((open_line(a) + b).drop_last() =~= open_line(a) + c);
        assert(segments(a + b) =~= segments(a).drop_last() + segments(open_line(a) + b));
    }
}

/// How a stream is cut into pieces does not matter: reading it in two steps gives the
/// lines, and leaves the open line, that reading it in one step does.
pub proof fn chunks_do_not_matter(pending: Seq<u8>, a: Seq<u8>, b: Seq<u8>)
    ensures
        ended_lines(pending + a) + ended_lines(open_line(pending + a) + b) == ended_lines(
            pending + a + b,
        ),
        open_line(open_line(pending + a) + b) == open_line(pending + a + b),
{
    let s = pending + a;
    segments_of_both(s, b);
    segments_len(s);
    segments_len(open_line(s) + b);
    assert(ended_lines(s) + ended_lines(open_line(s) + b) =~= ended_lines(s + b));
}

/// The tunnel program to run: the configured one, or else the one that the environment
/// names, or else the one that the search path has.
pub open spec fn program(configured: Option<Seq<char>>, environment: Option<Seq<char>>) -> Seq<
    char,
> {
    match (configured, environment) {
        (Some(p), _) => p,
        (None, Some(p)) => p,
        (None, None) => "devtunnel"@,
    }
}

/// The tunnel program to run, from the settings and from the value of
/// `SSHDT_DEVTUNNEL_BIN`.
pub fn tunnel_program(configured: Option<String>, environment: Option<String>) -> (r: String)
    ensures
        r@ == program(option_text(configured), option_text(environment)),
{
    match configured {
        Some(p) => p,
        None => match environment {
            Some(p) => p,
            None => "devtunnel".to_owned(),
        },
    }
}

/// The event for the end of a process, from its status, where it could be had.
pub fn exit_event(status: Option<(bool, Option<i32>)>) -> (r: ProcessEvent)
    ensures
        status is None ==> r == (ProcessEvent::Exited { success: false, code: None }),
        status matches Some(s) ==> r == (ProcessEvent::Exited { success: s.0, code: s.1 }),
{
    match status {
        Some((success, code)) => ProcessEvent::Exited { success, code },
        None => ProcessEvent::Exited { success: false, code: None },
    }
}

/// The exit code that a guardian passes on for its process: 1 where a signal ended it.
pub fn guardian_code(code: Option<i32>) -> (r: i32)
    ensures
        r == (match code {
            Some(c) => c,
            None => 1i32,
        }),
{
    match code {
        Some(c) => c,
        None => 1,
    }
}

/// What a guardian does next.
#[derive(Clone, Copy, Debug, PartialEq, Eq, Structural)]
pub enum GuardStep {
    /// Look again after a pause.
    Wait,
    /// End the whole group of processes.
    EndGroup,
}

/// What a guardian does next: it ends the group once its owner is gone, once the
/// process has ended, and where it cannot tell.
pub fn guard_step(owner_gone: bool, status_known: bool, ended: bool) -> (r: GuardStep)
    ensures
        r == GuardStep::EndGroup <==> owner_gone || !status_known || ended,
{
    if owner_gone || !status_known || ended {
        GuardStep::EndGroup
    } else {
        GuardStep::Wait
    }
}

/// The lines of a stream are what stands before each of its line feeds, one after the other, and
/// what follows the last one is still open.
pub proof fn lines_end_at_line_feeds(line: Seq<u8>, rest: Seq<u8>)
    requires
        forall|i: int| 0 <= i < line.len() ==> #[trigger] line[i] != 10,
    ensures
        ended_lines(line) == Seq::<Seq<char>>::empty(),
        open_line(line) == line,
        ended_lines(line + seq![10u8] + rest) == seq![ended_line(line)] + ended_lines(rest),
        open_line(line + seq![10u8] + rest) == open_line(rest),
{
    one_segment(line);
    assert(ended_lines(line) =~= Seq::<Seq<char>>::empty());
    let a = line + seq![10u8];
    assert(a.drop_last() =~= line);
    assert(segments(a) =~= seq![line, Seq::<u8>::empty()]);
    assert(open_line(a) == Seq::<u8>::empty());
    segments_of_both(a, rest);
    assert(open_line(a) + rest =~= rest);
    segments_len(rest);
    assert(segments(a).drop_last() =~= seq![line]);
    let all = segments(a + rest);
    assert(all == seq![line] + segments(rest));
    assert(ended_lines(a + rest) =~= seq![ended_line(line)] + ended_lines(rest));
}

/// A line of at most 65536 bytes is kept as its text, without carriage returns at its end, and
/// of a longer one only that it was there. What a stream ends with is a line where it is not
/// empty.
pub proof fn what_is_kept_of_lines(bytes: Seq<u8>)
    ensures
        bytes.len() <= 65536 ==> ended_line(bytes) == without_returns(lossy_text(bytes)),
        bytes.len() > 65536 ==> ended_line(bytes) == "[oversized output line omitted]"@,
        0 < bytes.len() <= 65536 ==> last_line(bytes) == Some(lossy_text(bytes)),
        bytes.len() > 65536 ==> last_line(bytes) == Some("[oversized output line omitted]"@),
        bytes.len() == 0 ==> last_line(bytes) is None,
{
}

/// Carriage returns at the end of a text are dropped, all of them, and nothing else is.
pub proof fn returns_are_dropped(s: Seq<char>)
    ensures
        without_returns(s.push('\r')) == without_returns(s),
        s.len() == 0 || s.last() != '\r' ==> without_returns(s) == s,
{
    assert(s.push('\r').drop_last() =~= s);
}

/// The program that is configured is run, else the one that the environment names, and else
/// `devtunnel`.
pub proof fn which_program_is_run(configured: Seq<char>, environment: Option<Seq<char>>)
    ensures
        program(Some(configured), environment) == configured,
        program(None, Some(configured)) == configured,
        program(None, None) == "devtunnel"@,
{
}

} // verus!

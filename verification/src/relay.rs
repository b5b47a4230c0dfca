//! Log relaying: turning the byte streams of a child process into
//! structured, level-tagged events. The stream is cut into complete
//! lines as it arrives; a partial line that is still unterminated when
//! the stream closes is dropped, not forwarded. Order is preserved
//! within one stream; nothing is promised across streams.

use vstd::prelude::*;

verus! {

use crate::text::{
    split_fields,
    strip_cr,
    strip_cr_str,
    split_on,
    views_of,
};

/// Which output stream of a child process a line came from.
#[derive(Clone, Copy, Debug, PartialEq, Eq, Structural)]
pub enum StreamKind {
    Stdout,
    Stderr,
}

/// The level attached to a relayed line: standard output is
/// informational, standard error is an error.
#[derive(Clone, Copy, Debug, PartialEq, Eq, Structural)]
pub enum LogLevel {
    Info,
    Error,
}

/// The level a stream's lines are tagged with.
pub open spec fn level_of(kind: StreamKind) -> LogLevel {
    match kind {
        StreamKind::Stdout => LogLevel::Info,
        StreamKind::Stderr => LogLevel::Error,
    }
}

impl LogLevel {
    /// The textual tag carried on the event stream.
    pub fn label(&self) -> (r: String)
        ensures
            *self == LogLevel::Info ==> r@ == "info"@,
            *self == LogLevel::Error ==> r@ == "error"@,
    {
        match self {
            LogLevel::Info => "info".to_owned(),
            LogLevel::Error => "error".to_owned(),
        }
    }
}

/// One relayed line of one process's output.
#[derive(Debug)]
pub struct LogEvent {
    pub app_id: String,
    pub message: String,
    pub level: LogLevel,
}

/// Each line without one trailing carriage return, so that CRLF and
/// LF streams relay the same messages.
pub open spec fn stripped(lines: Seq<Seq<char>>) -> Seq<Seq<char>> {
    lines.map_values(|l: Seq<char>| strip_cr(l))
}

/// The complete (newline-terminated) lines of a stream prefix, each
/// without its line terminator.
pub open spec fn complete_lines(s: Seq<char>) -> Seq<Seq<char>> {
    stripped(split_fields(s, '\n').drop_last())
}

/// What remains of a stream prefix after its last complete line; at
/// end of stream this partial line is dropped.
pub open spec fn line_remainder(s: Seq<char>) -> Seq<char> {
    split_fields(s, '\n').last()
}

/// Cuts the buffered stream prefix into its complete lines and the
/// still-unterminated remainder, which the caller buffers until more
/// of the stream arrives (or drops at end of stream).
pub fn extract_lines(buf: &str) -> (r: (Vec<String>, String))
    ensures
        views_of(r.0@) == complete_lines(buf@),
        r.1@ == line_remainder(buf@),
{
    let mut fields = split_on(buf, '\n');
    let ghost all = split_fields(buf@, '\n');
    proof {
        crate::text::lemma_split_fields_len(buf@, '\n');
    }
    let rem = match fields.pop() {
        Some(f) => f,
        None => {
            proof {
                assert(views_of(fields@).len() == 0);
                assert(false);
            }
            String::new()
        },
    };
    assert(rem@ == all.last());
    assert(views_of(fields@) =~~= all.drop_last());
    let ghost body = all.drop_last();
    let mut out: Vec<String> = Vec::new();
    let mut i: usize = 0;
    while i < fields.len()
        invariant
            0 <= i <= fields@.len(),
            views_of(fields@) == body,
            body == all.drop_last(),
            views_of(out@) =~~= stripped(body.take(i as int)),
        decreases fields@.len() - i,
    {
        let line = strip_cr_str(fields[i].as_str());
        proof {
            assert(views_of(fields@)[i as int] == fields@[i as int]@);
            assert(fields@[i as int]@ == body[i as int]);
        }
        let ghost prev: Seq<String> = out@;
        out.push(line);
        proof {
            assert(views_of(prev).len() == i);
            assert(prev.len() == i);
            assert(out@ == prev.push(line));
            assert(out@.len() == i + 1);
            assert forall|j: int| 0 <= j < i + 1 implies views_of(out@)[j] == stripped(
                body.take(i + 1),
            )[j] by {
                assert(stripped(body.take(i + 1))[j] == strip_cr(body.take(i + 1)[j]));
                assert(views_of(out@)[j] == out@[j]@);
                if j < i {
                    assert(out@[j] == prev[j]);
                    assert(views_of(prev)[j] == prev[j]@);
                    assert(views_of(prev)[j] == stripped(body.take(i as int))[j]);
                    assert(stripped(body.take(i as int))[j] == strip_cr(body.take(i as int)[j]));
                } else {
                    assert(out@[j] == line);
                    assert(line@ == strip_cr(body[i as int]));
                }
            }
            assert(views_of(out@) =~~= stripped(body.take(i + 1)));
        }
        i = i + 1;
    }
    assert(body.take(fields@.len() as int) =~= body);
    (out, rem)
}

proof fn lemma_stripped_snoc(a: Seq<Seq<char>>, x: Seq<char>)
    ensures
        stripped(a.push(x)) == stripped(a).push(strip_cr(x)),
{
    assert forall|j: int| 0 <= j < a.len() + 1 implies stripped(a.push(x))[j] == stripped(a).push(
        strip_cr(x),
    )[j] by {
        assert(stripped(a.push(x))[j] == strip_cr(a.push(x)[j]));
        if j < a.len() {
            assert(a.push(x)[j] == a[j]);
            assert(stripped(a)[j] == strip_cr(a[j]));
        } else {
            assert(a.push(x)[j] == x);
        }
    }
    assert(stripped(a.push(x)) =~= stripped(a).push(strip_cr(x)));
}

proof fn lemma_stripped_concat(a: Seq<Seq<char>>, b: Seq<Seq<char>>)
    ensures
        stripped(a + b) == stripped(a) + stripped(b),
{
    assert forall|j: int| 0 <= j < a.len() + b.len() implies stripped(a + b)[j] == (stripped(a)
        + stripped(b))[j] by {
        assert(stripped(a + b)[j] == strip_cr((a + b)[j]));
        if j < a.len() {
            assert((a + b)[j] == a[j]);
            assert(stripped(a)[j] == strip_cr(a[j]));
        } else {
            assert((a + b)[j] == b[j - a.len()]);
            assert(stripped(b)[j - a.len()] == strip_cr(b[j - a.len()]));
        }
    }
    assert(stripped(a + b) =~= stripped(a) + stripped(b));
}

/// Law: cutting a stream into lines chunk by chunk relays exactly the
/// lines of the stream taken whole, in order: the complete lines of
/// `s + t` are those of `s` followed by those of `s`'s unterminated
/// tail joined with `t`, and the remainders agree likewise. So a relay
/// that buffers the remainder between reads preserves each stream's
/// line order no matter how the stream arrives in chunks.
pub proof fn lemma_lines_chunked(s: Seq<char>, t: Seq<char>)
    ensures
        complete_lines(s + t) == complete_lines(s) + complete_lines(line_remainder(s) + t),
        line_remainder(s + t) == line_remainder(line_remainder(s) + t),
    decreases t.len(),
{
    crate::text::lemma_split_fields_len(s, '\n');
    if t.len() == 0 {
        assert(s + t =~= s);
        assert(line_remainder(s) + t =~= line_remainder(s));
        crate::text::lemma_split_fields_last_no_sep(s, '\n');
        crate::text::lemma_split_fields_whole(line_remainder(s), '\n');
        assert(split_fields(line_remainder(s), '\n') == seq![line_remainder(s)]);
        assert(seq![line_remainder(s)].drop_last() =~= Seq::<Seq<char>>::empty());
        assert(complete_lines(line_remainder(s)) =~= Seq::<Seq<char>>::empty());
        assert(complete_lines(s) + Seq::<Seq<char>>::empty() =~= complete_lines(s));
    } else {
        let t0 = t.drop_last();
        let c = t.last();
        lemma_lines_chunked(s, t0);
        assert(s + t =~= (s + t0).push(c));
        assert(line_remainder(s) + t =~= (line_remainder(s) + t0).push(c));
        let a = split_fields(s + t0, '\n');
        let b = split_fields(line_remainder(s) + t0, '\n');
        crate::text::lemma_split_fields_len(s + t0, '\n');
        crate::text::lemma_split_fields_len(line_remainder(s) + t0, '\n');
        crate::text::lemma_split_fields_snoc(s + t0, c, '\n');
        crate::text::lemma_split_fields_snoc(line_remainder(s) + t0, c, '\n');
        if c == '\n' {
            assert(split_fields(s + t, '\n') == a.push(Seq::<char>::empty()));
            assert(split_fields(line_remainder(s) + t, '\n') == b.push(Seq::<char>::empty()));
            assert(a.push(Seq::<char>::empty()).drop_last() =~= a);
            assert(b.push(Seq::<char>::empty()).drop_last() =~= b);
            assert(a =~= a.drop_last().push(a.last()));
            assert(b =~= b.drop_last().push(b.last()));
            lemma_stripped_snoc(a.drop_last(), a.last());
            lemma_stripped_snoc(b.drop_last(), b.last());
            assert(complete_lines(s + t) == stripped(a.drop_last()).push(strip_cr(a.last())));
            assert(complete_lines(line_remainder(s) + t) == stripped(b.drop_last()).push(
                strip_cr(b.last()),
            ));
            assert(a.last() == b.last());
            assert(stripped(a.drop_last()) == complete_lines(s) + stripped(b.drop_last()));
            assert((complete_lines(s) + stripped(b.drop_last())).push(strip_cr(b.last())) =~=
                complete_lines(s) + stripped(b.drop_last()).push(strip_cr(b.last())));
        } else {
            assert(split_fields(s + t, '\n') == a.update(a.len() - 1, a.last().push(c)));
            assert(split_fields(line_remainder(s) + t, '\n') == b.update(
                b.len() - 1,
                b.last().push(c),
            ));
            assert(a.update(a.len() - 1, a.last().push(c)).drop_last() =~= a.drop_last());
            assert(b.update(b.len() - 1, b.last().push(c)).drop_last() =~= b.drop_last());
            assert(complete_lines(s + t) == stripped(a.drop_last()));
            assert(complete_lines(line_remainder(s) + t) == stripped(b.drop_last()));
            assert(line_remainder(s + t) == a.last().push(c));
            assert(line_remainder(line_remainder(s) + t) == b.last().push(c));
            assert(a.last() == b.last());
        }
    }
}

/// Tags each line of one stream as one event, preserving order.
pub fn relay_lines(app_id: &str, lines: Vec<String>, kind: StreamKind) -> (events: Vec<LogEvent>)
    ensures
        events@.len() == lines@.len(),
        forall|i: int|
            0 <= i < events@.len() ==> {
                &&& (#[trigger] events@[i]).app_id@ == app_id@
                &&& events@[i].message@ == lines@[i]@
                &&& events@[i].level == level_of(kind)
            },
{
    let mut events: Vec<LogEvent> = Vec::new();
    let mut i: usize = 0;
    while i < lines.len()
        invariant
            0 <= i <= lines@.len(),
            events@.len() == i,
            forall|j: int|
                0 <= j < i ==> {
                    &&& (#[trigger] events@[j]).app_id@ == app_id@
                    &&& events@[j].message@ == lines@[j]@
                    &&& events@[j].level == level_of(kind)
                },
        decreases lines@.len() - i,
    {
        let level = match kind {
            StreamKind::Stdout => LogLevel::Info,
            StreamKind::Stderr => LogLevel::Error,
        };
        let event = LogEvent {
            app_id: app_id.to_owned(),
            message: lines[i].clone(),
            level,
        };
        events.push(event);
        i = i + 1;
    }
    events
}

} // verus!

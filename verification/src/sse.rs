//! Server-Sent-Events framing.
//!
//! [`parse_event`] decodes one buffered SSE message into its event type and
//! joined data payload.  [`SseDecoder`] scans a raw byte stream for event
//! boundaries — a `data:`-prefixed line, or a blank line flushing the
//! buffered span — keeping bytes after the last boundary for the next read,
//! so a read that stops mid-line decodes exactly as a single read would.

use vstd::prelude::*;
use vstd::utf8::{decode_utf8, valid_utf8};

use crate::strkit::{
    chars_of, chars_start_with, slice_of, split_lines, starts_with, string_from_chars,
    string_from_utf8, trim_chars, trim_spec,
};

verus! {

/// One `parse_event` fold step: a trimmed `event:` line replaces the event
/// type, a trimmed `data:` line appends (newline-joined) to the data, and
/// anything else is skipped.
pub open spec fn pe_step(acc: (Seq<char>, Seq<char>), line: Seq<char>) -> (Seq<char>, Seq<char>) {
    let t = trim_spec(line);
    if t.len() == 0 {
        acc
    } else if starts_with(t, "event:"@) {
        (trim_spec(t.skip(6)), acc.1)
    } else if starts_with(t, "data:"@) {
        (
            acc.0,
            if acc.1.len() > 0 {
                acc.1 + seq!['\n'] + trim_spec(t.skip(5))
            } else {
                trim_spec(t.skip(5))
            },
        )
    } else {
        acc
    }
}

/// `pe_step` folded over the lines, front to back.
pub open spec fn pe_fold(lines: Seq<Seq<char>>, acc: (Seq<char>, Seq<char>)) -> (
    Seq<char>,
    Seq<char>,
)
    decreases lines.len(),
{
    if lines.len() == 0 {
        acc
    } else {
        pe_fold(lines.drop_first(), pe_step(acc, lines.first()))
    }
}

/// What `parse_event` returns: the folded event type and data, or nothing
/// when no `data:` line contributed.
pub open spec fn parse_event_spec(s: Seq<char>) -> Option<(Seq<char>, Seq<char>)> {
    let acc = pe_fold(split_lines(s), (Seq::<char>::empty(), Seq::<char>::empty()));
    if acc.1.len() > 0 {
        Some(acc)
    } else {
        None
    }
}

/// The characters of `"event:"`.
fn event_prefix() -> (r: Vec<char>)
    ensures
        r@ == "event:"@,
{
    let r: Vec<char> = vec!['e', 'v', 'e', 'n', 't', ':'];
    proof {
        reveal_strlit("event:");
        assert(r@ =~= "event:"@);
    }
    r
}

/// The characters of `"data:"`.
fn data_prefix() -> (r: Vec<char>)
    ensures
        r@ == "data:"@,
{
    let r: Vec<char> = vec!['d', 'a', 't', 'a', ':'];
    proof {
        reveal_strlit("data:");
        assert(r@ =~= "data:"@);
    }
    r
}

/// Split a character vector at newlines.
pub fn split_lines_exec(v: &Vec<char>) -> (r: Vec<Vec<char>>)
    ensures
        r@.map_values(|l: Vec<char>| l@) == split_lines(v@),
{
    let ghost s = v@;
    let mut done: Vec<Vec<char>> = Vec::new();
    let mut cur: Vec<char> = Vec::new();
    let mut pos: usize = 0;
    proof {
        assert(Seq::<char>::empty() + s.skip(0) =~= s);
        assert(done@.map_values(|l: Vec<char>| l@) =~= Seq::<Seq<char>>::empty());
    }
    while pos < v.len()
        invariant
            pos <= s.len(),
            v@ == s,
            forall|k: int| 0 <= k < cur@.len() ==> cur@[k] != '\n',
            done@.map_values(|l: Vec<char>| l@) + split_lines(cur@ + s.skip(pos as int))
                == split_lines(s),
        decreases s.len() - pos,
    {
        let ghost done0 = done@.map_values(|l: Vec<char>| l@);
        let ghost cur0 = cur@;
        let c = v[pos];
        if c == '\n' {
            proof {
                crate::strkit::lemma_split_lines_concat(cur0, s.skip(pos as int));
                assert(s.skip(pos as int).drop_first() =~= s.skip(pos + 1));
                assert(split_lines(s.skip(pos as int)) == seq![Seq::<char>::empty()]
                    + split_lines(s.skip(pos + 1)));
                assert(cur0 + (seq![Seq::<char>::empty()] + split_lines(s.skip(pos + 1)))[0]
                    =~= cur0);
                assert(split_lines(cur0 + s.skip(pos as int)) == seq![cur0] + split_lines(
                    s.skip(pos + 1),
                ));
            }
            done.push(cur);
            cur = Vec::new();
            proof {
                assert(done@.map_values(|l: Vec<char>| l@) =~= done0.push(cur0));
                assert(cur@ + s.skip(pos + 1) =~= s.skip(pos + 1));
                assert(done0.push(cur0) + split_lines(s.skip(pos + 1)) =~= done0 + (seq![cur0]
                    + split_lines(s.skip(pos + 1))));
            }
        } else {
            cur.push(c);
            proof {
                assert(cur@ + s.skip(pos + 1) =~= cur0 + s.skip(pos as int));
            }
        }
        pos = pos + 1;
    }
    proof {
        assert(cur@ + s.skip(pos as int) =~= cur@);
    }
    let ghost done0 = done@.map_values(|l: Vec<char>| l@);
    let ghost cur0 = cur@;
    done.push(cur);
    proof {
        crate::strkit::lemma_split_lines_concat(cur0, Seq::<char>::empty());
        assert(cur0 + Seq::<char>::empty() =~= cur0);
        assert(cur0 + split_lines(Seq::<char>::empty())[0] =~= cur0);
        assert(split_lines(cur0) == seq![cur0]);
        assert(done@.map_values(|l: Vec<char>| l@) =~= done0.push(cur0));
        assert(done0.push(cur0) =~= done0 + seq![cur0]);
        assert(done@.map_values(|l: Vec<char>| l@) =~= split_lines(s));
    }
    done
}

/// Decode one buffered SSE message.
///
/// Each line is trimmed; `event:` lines set the event type, `data:` lines
/// append their payload to the event data, joined by newlines.  Returns
/// `(event_type, data)` when at least one `data:` line contributed, and
/// nothing otherwise.
pub fn parse_event(data: &str) -> (r: Option<(String, String)>)
    ensures
        ({
            let p = parse_event_spec(data@);
            match r {
                Some(pair) => p matches Some(q) && pair.0@ == q.0 && pair.1@ == q.1,
                None => p is None,
            }
        }),
{
    let chars = chars_of(data);
    let lines = split_lines_exec(&chars);
    let ghost linesv = lines@.map_values(|l: Vec<char>| l@);
    let p_event = event_prefix();
    let p_data = data_prefix();
    let mut etype: Vec<char> = Vec::new();
    let mut edata: Vec<char> = Vec::new();
    let ghost init_acc = (Seq::<char>::empty(), Seq::<char>::empty());
    let mut i: usize = 0;
    proof {
        assert(linesv.skip(0) =~= linesv);
        assert(etype@ =~= Seq::<char>::empty());
        assert(edata@ =~= Seq::<char>::empty());
    }
    while i < lines.len()
        invariant
            i <= linesv.len(),
            lines@.map_values(|l: Vec<char>| l@) == linesv,
            p_event@ == "event:"@,
            p_data@ == "data:"@,
            pe_fold(linesv, init_acc) == pe_fold(linesv.skip(i as int), (etype@, edata@)),
        decreases linesv.len() - i,
    {
        let ghost acc0 = (etype@, edata@);
        let t = trim_chars(&lines[i]);
        proof {
            assert(lines@.map_values(|l: Vec<char>| l@)[i as int] == lines@[i as int]@);
            assert(t@ == trim_spec(linesv[i as int]));
        }
        if t.len() == 0 {
        } else if chars_start_with(&t, &p_event) {
            proof {
                reveal_strlit("event:");
                assert(t@.len() >= 6);
            }
            let rest = slice_of(&t, 6, t.len());
            proof {
                assert(rest@ =~= t@.skip(6));
            }
            etype = trim_chars(&rest);
        } else if chars_start_with(&t, &p_data) {
            proof {
                reveal_strlit("data:");
                assert(t@.len() >= 5);
            }
            let rest = slice_of(&t, 5, t.len());
            proof {
                assert(rest@ =~= t@.skip(5));
            }
            let payload = trim_chars(&rest);
            if edata.len() > 0 {
                edata.push('\n');
                crate::strkit::push_all(&mut edata, &payload);
                proof {
                    assert(edata@ =~= acc0.1 + seq!['\n'] + trim_spec(t@.skip(5)));
                }
            } else {
                edata = payload;
            }
        }
        proof {
            assert((etype@, edata@) == pe_step(acc0, linesv[i as int]));
            assert(linesv.skip(i as int).first() == linesv[i as int]);
            assert(linesv.skip(i as int).drop_first() =~= linesv.skip(i + 1));
            assert(pe_fold(linesv.skip(i as int), acc0) == pe_fold(
                linesv.skip(i + 1),
                (etype@, edata@),
            ));
        }
        i = i + 1;
    }
    proof {
        assert(linesv.skip(i as int) =~= Seq::<Seq<char>>::empty());
        assert(pe_fold(linesv, init_acc) == (etype@, edata@));
    }
    if edata.len() > 0 {
        Some((string_from_chars(etype), string_from_chars(edata)))
    } else {
        None
    }
}

/// The data payload of one SSE line, if it is a `data:` line: the trimmed
/// text after the prefix of the trimmed line.
pub open spec fn sse_line_payload(line: Seq<char>) -> Option<Seq<char>> {
    let t = trim_spec(line);
    if starts_with(t, "data:"@) {
        Some(trim_spec(t.skip(5)))
    } else {
        None
    }
}

/// The events a flushed span (ended by a blank line) yields: its decoded
/// data payload if it is a `data:` line, the decoded span itself otherwise;
/// nothing if the bytes are not valid UTF-8.
pub open spec fn span_events(b: Seq<u8>, start: int, i: int) -> Seq<Seq<char>> {
    let span = b.subrange(start, i);
    if valid_utf8(span) {
        let t = decode_utf8(span);
        match sse_line_payload(t) {
            Some(p) => seq![p],
            None => seq![t],
        }
    } else {
        seq![]
    }
}

/// The events a complete single line yields: its decoded data payload if
/// it is a `data:` line, and nothing otherwise or on invalid UTF-8.
pub open spec fn line_events(b: Seq<u8>, start: int, i: int) -> Seq<Seq<char>> {
    let span = b.subrange(start, i);
    if valid_utf8(span) {
        match sse_line_payload(decode_utf8(span)) {
            Some(p) => seq![p],
            None => seq![],
        }
    } else {
        seq![]
    }
}

/// One scan over a buffer from position `i` with pending span beginning at
/// `start`: a double newline flushes the pending span as one event; a
/// single newline ends a line, which yields an event if it is a `data:`
/// line.  Returns the decoded events and where the unconsumed remainder
/// begins.
pub open spec fn scan_from(b: Seq<u8>, i: nat, start: nat) -> (Seq<Seq<char>>, nat)
    decreases b.len() - i,
{
    if i >= b.len() {
        (Seq::<Seq<char>>::empty(), start)
    } else if i + 1 < b.len() && b[i as int] == 10 && b[i as int + 1] == 10 && start <= i {
        let r = scan_from(b, i + 1, i + 2);
        (span_events(b, start as int, i as int) + r.0, r.1)
    } else if b[i as int] == 10 && start < i {
        let r = scan_from(b, i + 1, i + 1);
        (line_events(b, start as int, i as int) + r.0, r.1)
    } else {
        scan_from(b, i + 1, start)
    }
}

/// The scan finds a boundary at position `i`, given the pending span
/// begins at `start`: a double newline flushing a span, or a single
/// newline ending a non-empty line.
pub open spec fn scan_fires(b: Seq<u8>, i: nat, start: nat) -> bool {
    ||| (i + 1 < b.len() && b[i as int] == 10 && b[i as int + 1] == 10 && start <= i)
    ||| (b[i as int] == 10 && start < i)
}

/// The remainder start never moves backwards or past the end, and if it
/// moves at all it moves past the scanned position.
pub proof fn lemma_scan_start_range(b: Seq<u8>, i: nat, start: nat)
    requires
        start <= b.len(),
    ensures
        ({
            let fs = scan_from(b, i, start).1;
            &&& start <= fs <= b.len()
            &&& (fs == start || fs > i)
        }),
    decreases b.len() - i,
{
    if i < b.len() {
        if i + 1 < b.len() && b[i as int] == 10 && b[i as int + 1] == 10 && start <= i {
            lemma_scan_start_range(b, i + 1, i + 2);
        } else if b[i as int] == 10 && start < i {
            lemma_scan_start_range(b, i + 1, i + 1);
        } else {
            lemma_scan_start_range(b, i + 1, start);
        }
    }
}

/// After a scan, no boundary condition holds at or past the final
/// remainder start: everything left buffered is genuinely incomplete.
pub proof fn lemma_scan_residual(b: Seq<u8>, i: nat, start: nat)
    requires
        start <= b.len(),
    ensures
        ({
            let fs = scan_from(b, i, start).1;
            forall|j: nat| i <= j < b.len() && fs <= j ==> !scan_fires(b, j, fs)
        }),
    decreases b.len() - i,
{
    if i < b.len() {
        let fs = scan_from(b, i, start).1;
        if i + 1 < b.len() && b[i as int] == 10 && b[i as int + 1] == 10 && start <= i {
            lemma_scan_start_range(b, i + 1, i + 2);
            lemma_scan_residual(b, i + 1, i + 2);
            assert(fs == scan_from(b, i + 1, i + 2).1);
            assert(fs >= i + 2);
        } else if b[i as int] == 10 && start < i {
            lemma_scan_start_range(b, i + 1, i + 1);
            lemma_scan_residual(b, i + 1, i + 1);
            assert(fs == scan_from(b, i + 1, i + 1).1);
            assert(fs >= i + 1);
        } else {
            lemma_scan_start_range(b, i + 1, start);
            lemma_scan_residual(b, i + 1, start);
            assert(fs == scan_from(b, i + 1, start).1);
            assert forall|j: nat| i <= j < b.len() && fs <= j implies !scan_fires(b, j, fs) by {
                if j == i {
                    assert(fs == start || fs > i);
                    assert(fs == start);
                    assert(!scan_fires(b, i, start));
                }
            }
        }
    }
}

/// A scan whose prefix never fires is the scan from the end of that
/// prefix.
pub proof fn lemma_scan_inert_prefix(b: Seq<u8>, i: nat, k: nat)
    requires
        i <= k <= b.len(),
        forall|j: nat| i <= j < k ==> !scan_fires(b, j, 0),
    ensures
        scan_from(b, i, 0) == scan_from(b, k, 0),
    decreases k - i,
{
    if i < k {
        assert(!scan_fires(b, i, 0));
        lemma_scan_inert_prefix(b, i + 1, k);
    }
}

/// Scanning a suffix is the same scan with every position rebased.
pub proof fn lemma_scan_shift(b: Seq<u8>, i: nat, start: nat, d: nat)
    requires
        d <= start,
        d <= i,
        d <= b.len(),
    ensures
        scan_from(b, i, start).0 == scan_from(b.skip(d as int), (i - d) as nat, (start - d) as nat).0,
        scan_from(b, i, start).1 == scan_from(b.skip(d as int), (i - d) as nat, (start - d) as nat).1
            + d,
    decreases b.len() - i,
{
    let t = b.skip(d as int);
    let i2 = (i - d) as nat;
    let s2 = (start - d) as nat;
    if i < b.len() {
        assert(t[i2 as int] == b[i as int]);
        if i + 1 < b.len() {
            assert(t[i2 as int + 1] == b[i as int + 1]);
        }
        if i + 1 < b.len() && b[i as int] == 10 && b[i as int + 1] == 10 && start <= i {
            assert(b.subrange(start as int, i as int) =~= t.subrange(s2 as int, i2 as int));
            assert(span_events(b, start as int, i as int) == span_events(
                t,
                s2 as int,
                i2 as int,
            ));
            lemma_scan_shift(b, i + 1, i + 2, d);
        } else if b[i as int] == 10 && start < i {
            assert(b.subrange(start as int, i as int) =~= t.subrange(s2 as int, i2 as int));
            assert(line_events(b, start as int, i as int) == line_events(
                t,
                s2 as int,
                i2 as int,
            ));
            lemma_scan_shift(b, i + 1, i + 1, d);
        } else {
            lemma_scan_shift(b, i + 1, start, d);
        }
    }
}

/// Prefix agreement: when the first read does not end with a newline, the
/// combined scan's decisions over the first read's positions are the first
/// read's own scan, followed by the continuation from the first read's end.
pub proof fn lemma_scan_prefix(c1: Seq<u8>, c2: Seq<u8>, i: nat, start: nat)
    requires
        i <= c1.len(),
        start <= c1.len(),
        c1.len() > 0 ==> c1.last() != 10,
    ensures
        ({
            let whole = scan_from(c1 + c2, i, start);
            let first = scan_from(c1, i, start);
            let cont = scan_from(c1 + c2, c1.len() as nat, first.1);
            whole.0 == first.0 + cont.0 && whole.1 == cont.1
        }),
    decreases c1.len() - i,
{
    let b = c1 + c2;
    if i == c1.len() {
        assert(scan_from(c1, i, start) == (Seq::<Seq<char>>::empty(), start));
        assert(Seq::<Seq<char>>::empty() + scan_from(b, c1.len() as nat, start).0 =~= scan_from(
            b,
            c1.len() as nat,
            start,
        ).0);
    } else {
        assert(b[i as int] == c1[i as int]);
        if i + 1 < c1.len() {
            assert(b[i as int + 1] == c1[i as int + 1]);
        }
        if i == c1.len() - 1 {
            assert(c1[i as int] == c1.last());
        }
        let first = scan_from(c1, i, start);
        if i + 1 < c1.len() && c1[i as int] == 10 && c1[i as int + 1] == 10 && start <= i {
            assert(b.subrange(start as int, i as int) =~= c1.subrange(start as int, i as int));
            assert(span_events(b, start as int, i as int) == span_events(
                c1,
                start as int,
                i as int,
            ));
            lemma_scan_prefix(c1, c2, i + 1, i + 2);
            let tail_first = scan_from(c1, i + 1, i + 2);
            let cont = scan_from(b, c1.len() as nat, tail_first.1);
            assert(first.1 == tail_first.1);
            assert(span_events(c1, start as int, i as int) + (tail_first.0 + cont.0)
                =~= (span_events(c1, start as int, i as int) + tail_first.0) + cont.0);
        } else if c1[i as int] == 10 && start < i {
            assert(b.subrange(start as int, i as int) =~= c1.subrange(start as int, i as int));
            assert(line_events(b, start as int, i as int) == line_events(
                c1,
                start as int,
                i as int,
            ));
            lemma_scan_prefix(c1, c2, i + 1, i + 1);
            let tail_first = scan_from(c1, i + 1, i + 1);
            let cont = scan_from(b, c1.len() as nat, tail_first.1);
            assert(first.1 == tail_first.1);
            assert(line_events(c1, start as int, i as int) + (tail_first.0 + cont.0)
                =~= (line_events(c1, start as int, i as int) + tail_first.0) + cont.0);
        } else {
            // Neither boundary fires here, in the first read or in the
            // combination: a lookahead past the first read's end would need
            // its last byte to be a newline.
            assert(!(i + 1 < b.len() && b[i as int] == 10 && b[i as int + 1] == 10 && start
                <= i)) by {
                if i + 1 >= c1.len() && b[i as int] == 10 {
                    assert(c1[i as int] == c1.last());
                }
            }
            lemma_scan_prefix(c1, c2, i + 1, start);
        }
    }
}

/// Splitting the byte stream between reads is invisible whenever the first
/// read does not end with a newline: the two feeds' events, concatenated,
/// are one combined feed's events, and the remaining buffers agree.
pub proof fn lemma_feed_split(c1: Seq<u8>, c2: Seq<u8>)
    requires
        c1.len() > 0 ==> c1.last() != 10,
    ensures
        ({
            let whole = scan_from(c1 + c2, 0, 0);
            let first = scan_from(c1, 0, 0);
            let rest = scan_from(c1.skip(first.1 as int) + c2, 0, 0);
            &&& whole.0 == first.0 + rest.0
            &&& (c1 + c2).skip(whole.1 as int) == (c1.skip(first.1 as int) + c2).skip(
                rest.1 as int,
            )
        }),
{
    let b = c1 + c2;
    let first = scan_from(c1, 0, 0);
    let fs = first.1;
    lemma_scan_start_range(c1, 0, 0);
    lemma_scan_prefix(c1, c2, 0, 0);
    let cont = scan_from(b, c1.len() as nat, fs);
    lemma_scan_shift(b, c1.len() as nat, fs, fs);
    let rem = c1.skip(fs as int);
    assert(b.skip(fs as int) =~= rem + c2);
    let k = (c1.len() - fs) as nat;
    assert(rem.len() == k);
    let shifted = scan_from(rem + c2, k, 0);
    assert(cont.0 == shifted.0 && cont.1 == shifted.1 + fs);
    lemma_scan_residual(c1, 0, 0);
    assert forall|j: nat| j < k implies !scan_fires(rem + c2, j, 0) by {
        let jj = (fs + j) as nat;
        assert(!scan_fires(c1, jj, fs));
        assert((rem + c2)[j as int] == c1[jj as int]);
        if (rem + c2)[j as int] == 10 {
            if j + 1 < k {
                assert((rem + c2)[j as int + 1] == c1[jj as int + 1]);
                assert(jj + 1 < c1.len());
                assert(!(c1[jj as int] == 10 && c1[jj as int + 1] == 10));
            } else {
                assert(jj == c1.len() - 1);
                assert(c1[jj as int] == c1.last());
            }
            if 0 < j {
                assert(fs < jj);
                assert(!(c1[jj as int] == 10));
            }
        }
    }
    lemma_scan_inert_prefix(rem + c2, 0, k);
    let rest = scan_from(rem + c2, 0, 0);
    assert(rest == shifted);
    lemma_scan_start_range(rem + c2, 0, 0);
    assert(scan_from(b, 0, 0).1 == rest.1 + fs);
    assert(b.skip((fs + rest.1) as int) =~= b.skip(fs as int).skip(rest.1 as int));
    assert(b.skip(fs as int).skip(rest.1 as int) =~= (rem + c2).skip(rest.1 as int));
}

/// A scan over newline-free input finds no events and consumes nothing.
pub proof fn lemma_scan_no_newline(b: Seq<u8>, i: nat, start: nat)
    requires
        forall|k: int| i <= k < b.len() ==> b[k] != 10,
    ensures
        scan_from(b, i, start) == (Seq::<Seq<char>>::empty(), start),
    decreases b.len() - i,
{
    if i < b.len() {
        lemma_scan_no_newline(b, i + 1, start);
    }
}

/// A read split before any newline is buffered whole: the first feed
/// yields no events and keeps every byte, so the next feed scans exactly
/// the bytes a single combined read would have.
pub proof fn lemma_split_reads_buffered(c1: Seq<u8>, c2: Seq<u8>)
    requires
        forall|k: int| 0 <= k < c1.len() ==> c1[k] != 10,
    ensures
        scan_from(c1, 0, 0) == (Seq::<Seq<char>>::empty(), 0nat),
        c1.skip(0) + c2 == c1 + c2,
{
    lemma_scan_no_newline(c1, 0, 0);
    assert(c1.skip(0) =~= c1);
}

/// An incremental SSE decoder over raw bytes: bytes after the last event
/// boundary stay buffered for the next read.
pub struct SseDecoder {
    buffer: Vec<u8>,
}

impl View for SseDecoder {
    type V = Seq<u8>;

    closed spec fn view(&self) -> Seq<u8> {
        self.buffer@
    }
}

impl SseDecoder {
    /// A decoder with an empty buffer.
    pub fn new() -> (r: SseDecoder)
        ensures
            r@ == Seq::<u8>::empty(),
    {
        SseDecoder { buffer: Vec::new() }
    }

    /// Append one read's bytes and decode every complete event in the
    /// buffer; the remainder past the last boundary stays buffered.
    pub fn feed(&mut self, chunk: &[u8]) -> (events: Vec<String>)
        requires
            old(self)@.len() + chunk@.len() <= usize::MAX,
        ensures
            ({
                let b = old(self)@ + chunk@;
                let r = scan_from(b, 0, 0);
                &&& events@.map_values(|s: String| s@) == r.0
                &&& final(self)@ == b.skip(r.1 as int)
            }),
    {
        let chunk_vec = vstd::slice::slice_to_vec(chunk);
        crate::strkit::push_all(&mut self.buffer, &chunk_vec);
        let ghost b = self.buffer@;
        proof {
            assert(b == old(self)@ + chunk@);
        }
        let p_data = data_prefix();
        let mut events: Vec<String> = Vec::new();
        let mut start: usize = 0;
        let mut i: usize = 0;
        let n = self.buffer.len();
        proof {
            assert(events@.map_values(|s: String| s@) =~= Seq::<Seq<char>>::empty());
            assert(Seq::<Seq<char>>::empty() + scan_from(b, 0, 0).0 =~= scan_from(b, 0, 0).0);
        }
        while i < n
            invariant
                self.buffer@ == b,
                n == b.len(),
                i <= n,
                start <= n,
                p_data@ == "data:"@,
                scan_from(b, 0, 0).0 == events@.map_values(|s: String| s@) + scan_from(
                    b,
                    i as nat,
                    start as nat,
                ).0,
                scan_from(b, 0, 0).1 == scan_from(b, i as nat, start as nat).1,
            decreases n - i,
        {
            let ghost ev0 = events@.map_values(|s: String| s@);
            let double = i + 1 < n && self.buffer[i] == 10 && self.buffer[i + 1] == 10 && start
                <= i;
            let single = self.buffer[i] == 10 && start < i;
            if double {
                let span = slice_of(&self.buffer, start, i);
                proof {
                    assert(span@ == b.subrange(start as int, i as int));
                }
                match string_from_utf8(span) {
                    Some(s) => {
                        let schars = chars_of(s.as_str());
                        let t = trim_chars(&schars);
                        if chars_start_with(&t, &p_data) {
                            proof {
                                reveal_strlit("data:");
                                assert(t@.len() >= 5);
                            }
                            let rest = slice_of(&t, 5, t.len());
                            proof {
                                assert(rest@ =~= t@.skip(5));
                            }
                            let payload = trim_chars(&rest);
                            let ev = string_from_chars(payload);
                            events.push(ev);
                        } else {
                            events.push(s);
                        }
                        proof {
                            assert(events@.map_values(|x: String| x@) =~= ev0 + span_events(
                                b,
                                start as int,
                                i as int,
                            ));
                        }
                    },
                    None => {
                        proof {
                            assert(span_events(b, start as int, i as int)
                                =~= Seq::<Seq<char>>::empty());
                            assert(events@.map_values(|x: String| x@) =~= ev0 + span_events(
                                b,
                                start as int,
                                i as int,
                            ));
                        }
                    },
                }
                proof {
                    assert(ev0 + (span_events(b, start as int, i as int) + scan_from(
                        b,
                        (i + 1) as nat,
                        (i + 2) as nat,
                    ).0) =~= (ev0 + span_events(b, start as int, i as int)) + scan_from(
                        b,
                        (i + 1) as nat,
                        (i + 2) as nat,
                    ).0);
                }
                start = i + 2;
            } else if single {
                let span = slice_of(&self.buffer, start, i);
                proof {
                    assert(span@ == b.subrange(start as int, i as int));
                }
                match string_from_utf8(span) {
                    Some(s) => {
                        let schars = chars_of(s.as_str());
                        let t = trim_chars(&schars);
                        if chars_start_with(&t, &p_data) {
                            proof {
                                reveal_strlit("data:");
                                assert(t@.len() >= 5);
                            }
                            let rest = slice_of(&t, 5, t.len());
                            proof {
                                assert(rest@ =~= t@.skip(5));
                            }
                            let payload = trim_chars(&rest);
                            let ev = string_from_chars(payload);
                            events.push(ev);
                        }
                        proof {
                            assert(events@.map_values(|x: String| x@) =~= ev0 + line_events(
                                b,
                                start as int,
                                i as int,
                            ));
                        }
                    },
                    None => {
                        proof {
                            assert(line_events(b, start as int, i as int)
                                =~= Seq::<Seq<char>>::empty());
                            assert(events@.map_values(|x: String| x@) =~= ev0 + line_events(
                                b,
                                start as int,
                                i as int,
                            ));
                        }
                    },
                }
                proof {
                    assert(ev0 + (line_events(b, start as int, i as int) + scan_from(
                        b,
                        (i + 1) as nat,
                        (i + 1) as nat,
                    ).0) =~= (ev0 + line_events(b, start as int, i as int)) + scan_from(
                        b,
                        (i + 1) as nat,
                        (i + 1) as nat,
                    ).0);
                }
                start = i + 1;
            }
            i = i + 1;
        }
        let rest = slice_of(&self.buffer, start, n);
        proof {
            assert(scan_from(b, n as nat, start as nat).1 == start);
            assert(rest@ =~= b.skip(scan_from(b, 0, 0).1 as int));
        }
        self.buffer = rest;
        events
    }

    /// Decode a plain (non-SSE) chunk as UTF-8 text, or drop it: the text
    /// of the bytes when they are valid UTF-8, and nothing otherwise.
    pub fn decode_text_chunk(chunk: &[u8]) -> (r: Option<String>)
        ensures
            r is Some <==> valid_utf8(chunk@),
            r matches Some(s) ==> s@ == decode_utf8(chunk@),
    {
        let v = vstd::slice::slice_to_vec(chunk);
        string_from_utf8(v)
    }
}

} // verus!

//! Wire frames: the serialized form of exactly one event.
//!
//! A frame is text-event-stream shaped: `event: <type>\n`, then one
//! `data: <line>\n` line per physical line of the payload (a payload
//! containing newlines is split so every line is wrapped independently),
//! then one blank line terminating the frame.

use vstd::prelude::*;
use vstd::string::StrSliceExecFns;
use vstd::string::StringExecFns;

use crate::event::Event;
use crate::event::EventView;
use crate::event::events_view;

verus! {

/// Relies on `String::push`: appends exactly the given character to the
/// end of the string.
pub assume_specification[ String::push ](s: &mut String, c: char)
    ensures
        final(s)@ == old(s)@.push(c),
;

/// How one payload character appears on the wire: a newline starts a new
/// `data: ` line, any other character stands as itself.
pub open spec fn expand_char(c: char) -> Seq<char> {
    if c == '\n' {
        "\ndata: "@
    } else {
        seq![c]
    }
}

/// The wire form of a payload's characters, with every newline replaced
/// by a break onto a fresh `data: ` line.
pub open spec fn expand_payload(p: Seq<char>) -> Seq<char>
    decreases p.len(),
{
    if p.len() == 0 {
        Seq::empty()
    } else {
        expand_payload(p.drop_last()) + expand_char(p.last())
    }
}

/// The full block of `data: ` lines carrying the payload `p`:
/// one line per physical line of `p`, each newline-terminated.
pub open spec fn data_block(p: Seq<char>) -> Seq<char> {
    "data: "@ + expand_payload(p) + "\n"@
}

/// The decimal digit character for `d` (meaningful for `d < 10`).
pub open spec fn digit_char(d: u64) -> char {
    if d == 0 { '0' }
    else if d == 1 { '1' }
    else if d == 2 { '2' }
    else if d == 3 { '3' }
    else if d == 4 { '4' }
    else if d == 5 { '5' }
    else if d == 6 { '6' }
    else if d == 7 { '7' }
    else if d == 8 { '8' }
    else { '9' }
}

/// The decimal rendering of `n`, most significant digit first.
pub open spec fn dec_rep(n: u64) -> Seq<char>
    decreases n,
{
    if n < 10 {
        seq![digit_char(n)]
    } else {
        dec_rep(n / 10).push(digit_char(n % 10))
    }
}

/// The frame type line for a live event.
pub open spec fn event_header(e: EventView) -> Seq<char> {
    match e {
        EventView::Joined { .. } => "event: joined\n"@,
        EventView::ChatMessage { .. } => "event: message\n"@,
        EventView::PasteCreated { .. } => "event: paste\n"@,
    }
}

/// The payload of a live frame for `e`.
///
/// A chat message reads `<nickname>: <text>`; a join reads
/// `<nickname> joined`; a paste is a structured reference of three lines:
/// author, title, and the decimal lookup identifier (the content itself is
/// fetched elsewhere).
pub open spec fn payload_of(e: EventView) -> Seq<char> {
    match e {
        EventView::Joined { nickname, .. } => nickname + " joined"@,
        EventView::ChatMessage { from, body, .. } => from + ": "@ + body,
        EventView::PasteCreated { author, title, reference_id, .. } =>
            author + "\n"@ + title + "\n"@ + dec_rep(reference_id),
    }
}

/// The complete wire text of the live frame for `e`.
pub open spec fn frame_of(e: EventView) -> Seq<char> {
    event_header(e) + data_block(payload_of(e)) + "\n"@
}

/// One replayed history event as a single logical line inside the
/// `connected` frame.
pub open spec fn replay_line(e: EventView) -> Seq<char> {
    match e {
        EventView::Joined { nickname, .. } => nickname + " joined"@,
        EventView::ChatMessage { from, body, .. } => from + ": "@ + body,
        EventView::PasteCreated { author, title, .. } => "paste by "@ + author + ": "@ + title,
    }
}

/// The replay payload: one logical line per historical event, oldest
/// first, separated by newlines.
pub open spec fn replay_payload(h: Seq<EventView>) -> Seq<char>
    decreases h.len(),
{
    if h.len() == 0 {
        Seq::empty()
    } else if h.len() == 1 {
        replay_line(h[0])
    } else {
        replay_payload(h.drop_last()) + "\n"@ + replay_line(h.last())
    }
}

/// The complete wire text of the `connected` frame replaying history `h`.
///
/// The whole replay is bundled as one frame; an empty history gives a
/// `connected` frame with no data lines.
pub open spec fn connected_frame(h: Seq<EventView>) -> Seq<char> {
    if h.len() == 0 {
        "event: connected\n"@ + "\n"@
    } else {
        "event: connected\n"@ + data_block(replay_payload(h)) + "\n"@
    }
}

/// The rendered wire form of exactly one event; it has no further domain
/// meaning once produced. Its model is its wire text.
pub struct Frame {
    pub text: String,
}

impl View for Frame {
    type V = Seq<char>;

    open spec fn view(&self) -> Seq<char> {
        self.text@
    }
}

/// The model of a queue of frames.
pub open spec fn frames_view(s: Seq<Frame>) -> Seq<Seq<char>> {
    s.map_values(|f: Frame| f@)
}

impl Frame {
    /// The wire text of the frame.
    pub fn as_str(&self) -> (r: &str)
        ensures
            r@ == self@,
    {
        self.text.as_str()
    }

    /// The wire text of the frame, by value.
    pub fn into_text(self) -> (r: String)
        ensures
            r@ == self@,
    {
        self.text
    }

    /// An independent copy of the frame, equal in the model.
    pub fn dup(&self) -> (f: Frame)
        ensures
            f@ == self@,
    {
        Frame { text: self.text.clone() }
    }
}

/// Appends the decimal rendering of `n` to `out`.
fn push_decimal(out: &mut String, n: u64)
    ensures
        final(out)@ == old(out)@ + dec_rep(n),
    decreases n,
{
    if n >= 10 {
        push_decimal(out, n / 10);
    }
    let d: u64 = n % 10;
    let c: char = if d == 0 { '0' }
        else if d == 1 { '1' }
        else if d == 2 { '2' }
        else if d == 3 { '3' }
        else if d == 4 { '4' }
        else if d == 5 { '5' }
        else if d == 6 { '6' }
        else if d == 7 { '7' }
        else if d == 8 { '8' }
        else { '9' };
    out.push(c);
    proof {
        if n < 10 {
            assert(old(out)@ + dec_rep(n) =~= old(out)@.push(digit_char(n)));
        } else {
            assert((old(out)@ + dec_rep(n / 10)).push(digit_char(n % 10))
                =~= old(out)@ + dec_rep(n));
        }
    }
}

/// Appends the wire expansion of `p`'s characters to `out`.
fn append_expanded(out: &mut String, p: &str)
    ensures
        final(out)@ == old(out)@ + expand_payload(p@),
{
    let n = p.unicode_len();
    let mut i: usize = 0;
    proof {
        assert(old(out)@ + expand_payload(p@.take(0)) =~= old(out)@);
    }
    while i < n
        invariant
            n == p@.len(),
            i <= n,
            out@ == old(out)@ + expand_payload(p@.take(i as int)),
        decreases n - i,
    {
        let c = p.get_char(i);
        if c == '\n' {
            out.append("\ndata: ");
        } else {
            out.push(c);
        }
        proof {
            assert(p@.take(i + 1).drop_last() =~= p@.take(i as int));
            assert(p@.take(i + 1).last() == p@[i as int]);
            assert((old(out)@ + expand_payload(p@.take(i as int))) + expand_char(p@[i as int])
                =~= old(out)@ + expand_payload(p@.take(i + 1)));
        }
        i = i + 1;
    }
    proof {
        assert(p@.take(n as int) =~= p@);
    }
}

/// Appends the full `data: ` block carrying payload `p` to `out`.
fn append_data_block(out: &mut String, p: &str)
    ensures
        final(out)@ == old(out)@ + data_block(p@),
{
    out.append("data: ");
    append_expanded(out, p);
    out.append("\n");
    proof {
        assert(((old(out)@ + "data: "@) + expand_payload(p@)) + "\n"@
            =~= old(out)@ + data_block(p@));
    }
}

/// Builds the payload string of the live frame for `e`.
fn build_payload(e: &Event) -> (r: String)
    ensures
        r@ == payload_of(e@),
{
    let mut out = String::new();
    match e {
        Event::Joined { nickname, .. } => {
            out.append(nickname.as_str());
            out.append(" joined");
        },
        Event::ChatMessage { from, body, .. } => {
            out.append(from.as_str());
            out.append(": ");
            out.append(body.as_str());
        },
        Event::PasteCreated { author, title, reference_id, .. } => {
            out.append(author.as_str());
            out.append("\n");
            out.append(title.as_str());
            out.append("\n");
            push_decimal(&mut out, *reference_id);
        },
    }
    out
}

/// Renders the live frame for `e`: the deterministic, stateless mapping
/// from an event to its wire form.
pub fn encode_event(e: &Event) -> (f: Frame)
    ensures
        f@ == frame_of(e@),
{
    let mut text = String::new();
    match e {
        Event::Joined { .. } => text.append("event: joined\n"),
        Event::ChatMessage { .. } => text.append("event: message\n"),
        Event::PasteCreated { .. } => text.append("event: paste\n"),
    }
    let payload = build_payload(e);
    append_data_block(&mut text, payload.as_str());
    text.append("\n");
    proof {
        assert(text@ =~= frame_of(e@));
    }
    Frame { text }
}

/// Appends the replay line of `e` to `out`.
fn append_replay_line(out: &mut String, e: &Event)
    ensures
        final(out)@ == old(out)@ + replay_line(e@),
{
    match e {
        Event::Joined { nickname, .. } => {
            out.append(nickname.as_str());
            out.append(" joined");
        },
        Event::ChatMessage { from, body, .. } => {
            out.append(from.as_str());
            out.append(": ");
            out.append(body.as_str());
        },
        Event::PasteCreated { author, title, .. } => {
            out.append("paste by ");
            out.append(author.as_str());
            out.append(": ");
            out.append(title.as_str());
        },
    }
    proof {
        assert(out@ =~= old(out)@ + replay_line(e@));
    }
}

/// Renders the `connected` frame replaying the history `events`.
pub fn encode_connected(events: &Vec<Event>) -> (f: Frame)
    ensures
        f@ == connected_frame(events_view(events@)),
{
    let ghost h = events_view(events@);
    let mut text = String::new();
    text.append("event: connected\n");
    if events.len() > 0 {
        let mut payload = String::new();
        let mut i: usize = 0;
        while i < events.len()
            invariant
                h == events_view(events@),
                h.len() == events@.len(),
                i <= events@.len(),
                payload@ == replay_payload(h.take(i as int)),
            decreases events@.len() - i,
        {
            if i > 0 {
                payload.append("\n");
            }
            append_replay_line(&mut payload, &events[i]);
            proof {
                assert(h.take(i + 1).drop_last() =~= h.take(i as int));
                assert(h.take(i + 1).last() == h[i as int]);
                if i == 0 {
                    assert(payload@ =~= replay_payload(h.take(1)));
                } else {
                    assert(payload@ =~= replay_payload(h.take(i + 1)));
                }
            }
            i = i + 1;
        }
        proof {
            assert(h.take(events@.len() as int) =~= h);
        }
        append_data_block(&mut text, payload.as_str());
    }
    text.append("\n");
    proof {
        assert(text@ =~= connected_frame(h));
    }
    Frame { text }
}

} // verus!

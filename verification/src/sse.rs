//! Server-sent events: cutting a stream of chunks into frames.
use vstd::prelude::*;
use vstd::utf8::{decode_utf8, valid_utf8};

use crate::text::{
    chars_of, join, join_texts, law_prefix_is_taken_off, lines, occurs, occurs_at, pieces,
    split_lines, strip_prefix, text_of, texts, trim, trim_bounds, utf8_text,
};

verus! {

/// The first position of an empty line's two line feeds, or the length where there are none.
pub open spec fn find_break(s: Seq<char>) -> int
    decreases s.len(),
{
    if s.len() == 0 || (s.len() >= 2 && s[0] == '\n' && s[1] == '\n') {
        0
    } else {
        1 + find_break(s.drop_first())
    }
}

proof fn lemma_find_break(s: Seq<char>)
    ensures
        0 <= find_break(s) <= s.len(),
        find_break(s) < s.len() ==> find_break(s) + 1 < s.len() && s[find_break(s)] == '\n' && s[
            find_break(s) + 1] == '\n',
        forall|i: int|
            0 <= i < find_break(s) && i + 1 < s.len() ==> !(#[trigger] s[i] == '\n' && s[i + 1]
                == '\n'),
    decreases s.len(),
{
    if !(s.len() == 0 || (s.len() >= 2 && s[0] == '\n' && s[1] == '\n')) {
        let t = s.drop_first();
        lemma_find_break(t);
        assert forall|i: int| 0 <= i < find_break(s) && i + 1 < s.len() implies !(
        #[trigger] s[i] == '\n' && s[i + 1] == '\n') by {
            if i > 0 {
                assert(t[i - 1] == s[i]);
                assert(t[i] == s[i + 1]);
            }
        }
    }
}

/// The frames of `s`: what stands before each break.
pub open spec fn frames_of(s: Seq<char>) -> Seq<Seq<char>>
    decreases s.len(),
{
    let p = find_break(s);
    if 0 <= p && p + 2 <= s.len() {
        seq![s.subrange(0, p)] + frames_of(s.skip(p + 2))
    } else {
        Seq::empty()
    }
}

/// What stands behind the last break of `s`.
pub open spec fn rest_of(s: Seq<char>) -> Seq<char>
    decreases s.len(),
{
    let p = find_break(s);
    if 0 <= p && p + 2 <= s.len() {
        rest_of(s.skip(p + 2))
    } else {
        s
    }
}

/// The event type that the last `event:` line names, empty where there is none.
pub open spec fn event_of(ls: Seq<Seq<char>>) -> Seq<char>
    decreases ls.len(),
{
    if ls.len() == 0 {
        Seq::empty()
    } else {
        match strip_prefix(ls.last(), "event:"@) {
            Some(rest) => trim(rest),
            None => event_of(ls.drop_last()),
        }
    }
}

/// What the `data:` lines hold, each without the white space around it.
pub open spec fn data_of(ls: Seq<Seq<char>>) -> Seq<Seq<char>>
    decreases ls.len(),
{
    if ls.len() == 0 {
        Seq::empty()
    } else {
        let front = data_of(ls.drop_last());
        match strip_prefix(ls.last(), "event:"@) {
            Some(_) => front,
            None => match strip_prefix(ls.last(), "data:"@) {
                Some(rest) => front.push(trim(rest)),
                None => front,
            },
        }
    }
}

/// The event of a frame: its type, `message` where it names none, and its data lines joined.
/// A frame without data is no event.
pub open spec fn event_in(frame: Seq<char>) -> Option<(Seq<char>, Seq<char>)> {
    let ls = lines(frame);
    if data_of(ls).len() == 0 {
        None
    } else {
        Some(
            (
                if event_of(ls).len() == 0 {
                    "message"@
                } else {
                    event_of(ls)
                },
                join(data_of(ls), "\n"@),
            ),
        )
    }
}

/// The events of the frames that have one.
pub open spec fn events_in(frames: Seq<Seq<char>>) -> Seq<(Seq<char>, Seq<char>)>
    decreases frames.len(),
{
    if frames.len() == 0 {
        Seq::empty()
    } else {
        let front = events_in(frames.drop_last());
        match event_in(frames.last()) {
            Some(e) => front.push(e),
            None => front,
        }
    }
}

/// The views of a list of events.
pub open spec fn event_views(v: Seq<(String, String)>) -> Seq<(Seq<char>, Seq<char>)> {
    v.map_values(|e: (String, String)| (e.0@, e.1@))
}

proof fn lemma_frames_first(a: Seq<char>, b: Seq<char>)
    requires
        find_break(a) < a.len(),
    ensures
        find_break(a + b) == find_break(a),
        0 <= find_break(a),
    decreases a.len(),
{
    lemma_find_break(a);
    let s = a + b;
    if !(a.len() >= 2 && a[0] == '\n' && a[1] == '\n') {
        assert(s.drop_first() =~= a.drop_first() + b);
        lemma_find_break(a.drop_first());
        lemma_frames_first(a.drop_first(), b);
    }
}

/// It makes no difference where a stream is cut into chunks: the frames of two texts read one
/// after the other are those of the texts read at once, and so is what is left over.
pub proof fn law_chunking_is_immaterial(a: Seq<char>, b: Seq<char>)
    ensures
        frames_of(a + b) == frames_of(a) + frames_of(rest_of(a) + b),
        rest_of(a + b) == rest_of(rest_of(a) + b),
    decreases a.len(),
{
    lemma_find_break(a);
    let p = find_break(a);
    if p < a.len() {
        lemma_frames_first(a, b);
        let t = a.skip(p + 2);
        law_chunking_is_immaterial(t, b);
        assert((a + b).skip(p + 2) =~= t + b);
        assert((a + b).subrange(0, p) =~= a.subrange(0, p));
        assert(seq![a.subrange(0, p)] + (frames_of(t) + frames_of(rest_of(t) + b)) =~= (seq![
            a.subrange(0, p),
        ] + frames_of(t)) + frames_of(rest_of(t) + b));
    } else {
        assert(Seq::<Seq<char>>::empty() + frames_of(a + b) =~= frames_of(a + b));
    }
}

/// The events of two lists of frames one after the other are those of the first and then those
/// of the second.
pub proof fn law_events_add_up(f: Seq<Seq<char>>, g: Seq<Seq<char>>)
    ensures
        events_in(f + g) == events_in(f) + events_in(g),
    decreases g.len(),
{
    if g.len() == 0 {
        assert(f + g =~= f);
        assert(events_in(f) + events_in(g) =~= events_in(f));
    } else {
        law_events_add_up(f, g.drop_last());
        assert((f + g).drop_last() =~= f + g.drop_last());
        assert((f + g).last() == g.last());
        match event_in(g.last()) {
            Some(e) => {
                assert((events_in(f) + events_in(g.drop_last())).push(e) =~= events_in(f)
                    + events_in(g.drop_last()).push(e));
            },
            None => {},
        }
    }
}

/// Nothing that was left over holds a break: it waits for more.
pub proof fn law_rest_has_no_frame(s: Seq<char>)
    ensures
        frames_of(rest_of(s)).len() == 0,
    decreases s.len(),
{
    lemma_find_break(s);
    if find_break(s) < s.len() {
        law_rest_has_no_frame(s.skip(find_break(s) + 2));
    }
}

/// Cuts the text of an event stream into events as its chunks come in.
pub struct SseFrameParser {
    buffer: Vec<char>,
}

impl View for SseFrameParser {
    type V = Seq<char>;

    closed spec fn view(&self) -> Seq<char> {
        self.buffer@
    }
}

/// The event of a frame.
fn parse_frame(frame: &Vec<char>) -> (r: Option<(String, String)>)
    ensures
        match r {
            Some(e) => event_in(frame@) == Some((e.0@, e.1@)),
            None => event_in(frame@) is None,
        },
{
    let ls = split_lines(frame);
    let ghost all = lines(frame@);
    let event_mark = chars_of("event:");
    let data_mark = chars_of("data:");
    let mut event_type = String::new();
    let mut data: Vec<String> = Vec::new();
    let mut i: usize = 0;
    proof {
        assert(all.take(0) =~= Seq::empty());
        assert(texts(data@) =~= Seq::empty());
    }
    while i < ls.len()
        invariant
            pieces(ls@) == all,
            i <= ls@.len(),
            event_mark@ == "event:"@,
            data_mark@ == "data:"@,
            event_type@ == event_of(all.take(i as int)),
            texts(data@) == data_of(all.take(i as int)),
        decreases ls@.len() - i,
    {
        let ghost line = all[i as int];
        proof {
            assert(line == ls@[i as int]@);
            assert(all.take(i + 1).drop_last() =~= all.take(i as int));
            assert(all.take(i + 1).last() == line);
        }
        let n: usize = ls[i].len();
        if occurs(&ls[i], &event_mark, 0) {
            let b = trim_bounds(&ls[i], event_mark.len(), n);
            event_type = text_of(&ls[i], b.0, b.1);
        } else if occurs(&ls[i], &data_mark, 0) {
            let b = trim_bounds(&ls[i], data_mark.len(), n);
            let ghost before = texts(data@);
            let piece = text_of(&ls[i], b.0, b.1);
            data.push(piece);
            proof {
                assert(texts(data@) =~= before.push(piece@));
            }
        }
        i = i + 1;
    }
    proof {
        assert(all.take(i as int) =~= all);
    }
    if data.len() == 0 {
        proof {
            assert(texts(data@).len() == 0);
        }
        return None;
    }
    let joined = join_texts(&data, "\n");
    if event_type.as_str().is_empty() {
        event_type = "message".to_owned();
    }
    Some((event_type, joined))
}

impl SseFrameParser {
    pub fn new() -> (r: Self)
        ensures
            r@ == Seq::<char>::empty(),
    {
        SseFrameParser { buffer: Vec::new() }
    }

    /// Adds a chunk and gives the events that are now complete, each with its type and its data.
    /// A chunk that is not UTF-8 is dropped.
    pub fn feed(&mut self, chunk: &[u8]) -> (r: Vec<(String, String)>)
        ensures
            valid_utf8(chunk@) ==> {
                &&& event_views(r@) == events_in(frames_of(old(self)@ + decode_utf8(chunk@)))
                &&& final(self)@ == rest_of(old(self)@ + decode_utf8(chunk@))
            },
            !valid_utf8(chunk@) ==> r@.len() == 0 && final(self)@ == old(self)@,
    {
        let mut out: Vec<(String, String)> = Vec::new();
        let text = match utf8_text(chunk) {
            Some(s) => s,
            None => {
                return out;
            },
        };
        let added = chars_of(text);
        let ghost all = self@ + text@;
        let mut buffer: Vec<char> = Vec::new();
        std::mem::swap(&mut buffer, &mut self.buffer);
        let mut k: usize = 0;
        while k < added.len()
            invariant
                k <= added@.len(),
                buffer@ == old(self)@ + added@.take(k as int),
            decreases added@.len() - k,
        {
            buffer.push(added[k]);
            proof {
                assert(added@.take(k + 1) =~= added@.take(k as int).push(added@[k as int]));
                assert(buffer@ =~= old(self)@ + added@.take(k + 1));
            }
            k = k + 1;
        }
        proof {
            assert(added@.take(k as int) =~= added@);
        }
        let n: usize = buffer.len();
        let mut start: usize = 0;
        let mut i: usize = 0;
        proof {
            assert(all.skip(0) =~= all);
            assert(event_views(out@) =~= Seq::empty());
            assert(Seq::<(Seq<char>, Seq<char>)>::empty() + events_in(frames_of(all))
                =~= events_in(frames_of(all)));
        }
        while i < n
            invariant
                buffer@ == all,
                n == all.len(),
                start <= i <= n,
                forall|j: int|
                    start <= j < i && j + 1 < n ==> !(#[trigger] all[j] == '\n' && all[j + 1]
                        == '\n'),
                event_views(out@) + events_in(frames_of(all.skip(start as int))) == events_in(
                    frames_of(all),
                ),
                rest_of(all.skip(start as int)) == rest_of(all),
            decreases n - i,
        {
            if buffer[i] == '\n' && n - i >= 2 && buffer[i + 1] == '\n' {
                let frame = crate::text::part_of(&buffer, start, i);
                let ghost s = all.skip(start as int);
                let ghost before = event_views(out@);
                proof {
                    lemma_break_at(s, i - start);
                    assert(s.subrange(0, i - start) =~= frame@);
                    assert(s.skip(i - start + 2) =~= all.skip(i + 2));
                    law_events_add_up(seq![frame@], frames_of(all.skip(i + 2)));
                    reveal_with_fuel(events_in, 2);
                    assert(seq![frame@].drop_last() =~= Seq::empty());
                    assert(seq![frame@].last() == frame@);
                    assert(events_in(seq![frame@]) =~= match event_in(frame@) {
                        Some(e) => seq![e],
                        None => Seq::empty(),
                    });
                }
                let event = parse_frame(&frame);
                if let Some(e) = event {
                    out.push(e);
                }
                proof {
                    match event_in(frame@) {
                        Some(e) => {
                            assert(event_views(out@) =~= before + seq![e]);
                        },
                        None => {
                            assert(event_views(out@) =~= before + Seq::empty());
                        },
                    }
                    assert(before + (events_in(seq![frame@]) + events_in(
                        frames_of(all.skip(i + 2)),
                    )) =~= (before + events_in(seq![frame@])) + events_in(
                        frames_of(all.skip(i + 2)),
                    ));
                }
                start = i + 2;
                i = i + 2;
            } else {
                i = i + 1;
            }
        }
        proof {
            let s = all.skip(start as int);
            lemma_no_break(s);
            assert(event_views(out@) + Seq::<(Seq<char>, Seq<char>)>::empty() =~= event_views(out@));
        }
        self.buffer = crate::text::part_of(&buffer, start, n);
        proof {
            assert(all.skip(start as int) =~= all.subrange(start as int, n as int));
        }
        out
    }
}

proof fn lemma_break_at(s: Seq<char>, p: int)
    requires
        0 <= p,
        p + 1 < s.len(),
        s[p] == '\n',
        s[p + 1] == '\n',
        forall|j: int| 0 <= j < p ==> !(#[trigger] s[j] == '\n' && s[j + 1] == '\n'),
    ensures
        find_break(s) == p,
{
    lemma_find_break(s);
    if find_break(s) < p {
        assert(s[find_break(s)] == '\n');
    }
    if find_break(s) > p {
        assert(s[p] == '\n');
    }
}

proof fn lemma_no_break(s: Seq<char>)
    requires
        forall|j: int| 0 <= j && j + 1 < s.len() ==> !(#[trigger] s[j] == '\n' && s[j + 1] == '\n'),
    ensures
        find_break(s) == s.len(),
{
    lemma_find_break(s);
    if find_break(s) < s.len() {
        assert(s[find_break(s)] == '\n');
    }
}

impl Default for SseFrameParser {
    fn default() -> (r: Self)
        ensures
            r@ == Seq::<char>::empty(),
    {
        SseFrameParser::new()
    }
}

/// A stream has a frame for every empty line: what stands before the first one is the first frame,
/// and what follows is cut up by itself. Without an empty line there is no frame, and everything
/// is left over.
pub proof fn law_frames_end_at_empty_lines(frame: Seq<char>, rest: Seq<char>)
    requires
        forall|j: int|
            0 <= j && j + 1 < frame.len() ==> !(#[trigger] frame[j] == '\n' && frame[j + 1] == '\n'),
    ensures
        frame.len() == 0 || frame.last() != '\n' ==> {
            &&& frames_of(frame + seq!['\n', '\n'] + rest) == seq![frame] + frames_of(rest)
            &&& rest_of(frame + seq!['\n', '\n'] + rest) == rest_of(rest)
        },
        frames_of(frame).len() == 0,
        rest_of(frame) == frame,
{
    lemma_no_break(frame);
    if frame.len() == 0 || frame.last() != '\n' {
        let s = frame + seq!['\n', '\n'] + rest;
        let p = frame.len() as int;
        assert forall|j: int| 0 <= j < p implies !(#[trigger] s[j] == '\n' && s[j + 1] == '\n') by {
            assert(s[j] == frame[j]);
            if j + 1 < p {
                assert(s[j + 1] == frame[j + 1]);
            }
        }
        lemma_break_at(s, p);
        assert(s.subrange(0, p) =~= frame);
        assert(s.skip(p + 2) =~= rest);
    }
}

/// The data of a frame are its data lines in order, each without the space around it; its event is
/// the last one named. A line of another kind changes neither.
pub proof fn law_lines_of_a_frame(ls: Seq<Seq<char>>, text: Seq<char>, other: Seq<char>)
    requires
        !occurs_at(other, "data:"@, 0),
        !occurs_at(other, "event:"@, 0),
    ensures
        data_of(Seq::empty()).len() == 0,
        event_of(Seq::empty()).len() == 0,
        data_of(ls.push("data:"@ + text)) == data_of(ls).push(trim(text)),
        event_of(ls.push("data:"@ + text)) == event_of(ls),
        data_of(ls.push("event:"@ + text)) == data_of(ls),
        event_of(ls.push("event:"@ + text)) == trim(text),
        data_of(ls.push(other)) == data_of(ls),
        event_of(ls.push(other)) == event_of(ls),
{
    let d = "data:"@ + text;
    let e = "event:"@ + text;
    law_prefix_is_taken_off("data:"@, text, d);
    law_prefix_is_taken_off("event:"@, text, e);
    reveal_strlit("data:");
    reveal_strlit("event:");
    assert(d[0] == 'd');
    if occurs_at(d, "event:"@, 0) {
        assert(d.subrange(0, 6)[0] == "event:"@[0]);
    }
    assert(ls.push(d).drop_last() =~= ls);
    assert(ls.push(e).drop_last() =~= ls);
    assert(ls.push(other).drop_last() =~= ls);
}

/// A frame is an event exactly where it has data: its name, or `message` where it has none, with
/// its data joined by line feeds.
pub proof fn law_frames_with_data_are_events(frame: Seq<char>)
    ensures
        event_in(frame) is Some <==> data_of(lines(frame)).len() > 0,
        event_in(frame) matches Some(e) ==> {
            &&& e.1 == join(data_of(lines(frame)), "\n"@)
            &&& event_of(lines(frame)).len() > 0 ==> e.0 == event_of(lines(frame))
            &&& event_of(lines(frame)).len() == 0 ==> e.0 == "message"@
        },
        event_in(frame) matches Some(e) ==> events_in(seq![frame]) == seq![e],
        event_in(frame) is None ==> events_in(seq![frame]).len() == 0,
{
    reveal_with_fuel(events_in, 2);
    if let Some(e) = event_in(frame) {
        assert(events_in(seq![frame]) =~= seq![e]);
    }
}

} // verus!

//! The upstream providers: where their endpoints are, and how they report usage.
use vstd::prelude::*;

use crate::json::{
    count, count_of, is_text, json_at, json_item, number, number_of, option_item, JsonItem, JsonView,
};
use crate::text::{
    chars_of, law_prefix_is_taken_off, lines, occurs, occurs_at, pieces, split_lines, strip_prefix,
    text_of, trim, utf8_lossy, utf8_lossy_text,
};
use crate::types::{ChannelProvider, Usage};

verus! {

/// `s` without the slashes behind.
pub open spec fn without_trailing_slashes(s: Seq<char>) -> Seq<char>
    decreases s.len(),
{
    if s.len() > 0 && s.last() == '/' {
        without_trailing_slashes(s.drop_last())
    } else {
        s
    }
}

/// What follows the last slash of `s`, or all of it.
pub open spec fn last_segment(s: Seq<char>) -> Seq<char>
    decreases s.len(),
{
    if s.len() == 0 || s.last() == '/' {
        Seq::empty()
    } else {
        last_segment(s.drop_last()).push(s.last())
    }
}

/// The last segment is a version such as `v1` or `v1beta`: the letter and a digit begin it.
pub open spec fn is_versioned(s: Seq<char>) -> bool {
    let seg = last_segment(s);
    seg.len() >= 2 && seg[0] == 'v' && '0' <= seg[1] && seg[1] <= '9'
}

/// The address of an endpoint below a base address: trailing slashes are dropped, and the
/// version `v1` is added where the base has none.
pub open spec fn endpoint(base: Seq<char>, path: Seq<char>) -> Seq<char> {
    let b = without_trailing_slashes(base);
    if is_versioned(b) {
        b + path
    } else {
        b + "/v1"@ + path
    }
}

proof fn lemma_last_segment(s: Seq<char>, from: int)
    requires
        0 <= from <= s.len(),
        from > 0 ==> s[from - 1] == '/',
        forall|i: int| from <= i < s.len() ==> s[i] != '/',
    ensures
        last_segment(s) == s.subrange(from, s.len() as int),
    decreases s.len(),
{
    if from == s.len() {
        assert(s.subrange(from, s.len() as int) =~= Seq::empty());
        if s.len() > 0 {
            assert(s.last() == s[from - 1]);
        }
    } else {
        lemma_last_segment(s.drop_last(), from);
        assert(s.drop_last().subrange(from, s.len() - 1).push(s.last()) =~= s.subrange(
            from,
            s.len() as int,
        ));
    }
}

/// The address of an endpoint below a base address.
fn build_endpoint(base_url: &str, path: &str) -> (r: String)
    ensures
        r@ == endpoint(base_url@, path@),
{
    let v = chars_of(base_url);
    let mut n: usize = v.len();
    proof {
        assert(v@.subrange(0, n as int) =~= v@);
    }
    while n > 0 && v[n - 1] == '/'
        invariant
            n <= v@.len(),
            without_trailing_slashes(v@.subrange(0, n as int)) == without_trailing_slashes(v@),
        ensures
            n <= v@.len(),
            v@.subrange(0, n as int) == without_trailing_slashes(v@),
        decreases n,
    {
        proof {
            assert(v@.subrange(0, n as int).drop_last() =~= v@.subrange(0, n - 1));
        }
        n = n - 1;
    }
    let mut from: usize = n;
    while from > 0 && v[from - 1] != '/'
        invariant
            from <= n <= v@.len(),
            forall|i: int| from <= i < n ==> v@[i] != '/',
        ensures
            from <= n <= v@.len(),
            forall|i: int| from <= i < n ==> v@[i] != '/',
            from > 0 ==> v@[from - 1] == '/',
        decreases from,
    {
        from = from - 1;
    }
    let versioned = n - from >= 2 && v[from] == 'v' && '0' <= v[from + 1] && v[from + 1] <= '9';
    let mut r = text_of(&v, 0, n);
    proof {
        let b = v@.subrange(0, n as int);
        lemma_last_segment(b, from as int);
        assert(versioned == is_versioned(b));
    }
    if !versioned {
        r.append("/v1");
    }
    r.append(path);
    r
}

/// The address of the list of models.
pub fn build_models_url(base_url: &str) -> (r: String)
    ensures
        r@ == endpoint(base_url@, "/models"@),
{
    build_endpoint(base_url, "/models")
}

/// The address of the chat endpoint of an OpenAI compatible provider.
pub fn build_openai_chat_url(base_url: &str) -> (r: String)
    ensures
        r@ == endpoint(base_url@, "/chat/completions"@),
{
    build_endpoint(base_url, "/chat/completions")
}

/// The address of the messages endpoint of Anthropic.
pub fn build_claude_messages_url(base_url: &str) -> (r: String)
    ensures
        r@ == endpoint(base_url@, "/messages"@),
{
    build_endpoint(base_url, "/messages")
}

/// A trailing slash of the base address makes no difference.
pub proof fn law_trailing_slash_is_ignored(base: Seq<char>, path: Seq<char>)
    ensures
        endpoint(base.push('/'), path) == endpoint(base, path),
{
    assert(base.push('/').drop_last() =~= base);
}

/// A base address without a version means the same as with `/v1` behind it.
pub proof fn law_version_defaults_to_v1(base: Seq<char>, path: Seq<char>)
    requires
        !is_versioned(without_trailing_slashes(base)),
    ensures
        endpoint(without_trailing_slashes(base) + "/v1"@, path) == endpoint(base, path),
{
    reveal_strlit("/v1");
    let b = without_trailing_slashes(base);
    let v = b + "/v1"@;
    assert(v.last() == '1');
    assert(v[b.len() as int] == '/');
    lemma_last_segment(v, (b.len() + 1) as int);
    assert(v.subrange((b.len() + 1) as int, v.len() as int)[0] == 'v');
    assert(v.subrange((b.len() + 1) as int, v.len() as int)[1] == '1');
    assert(b + "/v1"@ + path =~= v + path);
}

/// The usage that the three counts of an OpenAI report give.
pub open spec fn openai_counts(
    prompt: Option<JsonView>,
    completion: Option<JsonView>,
    total: Option<JsonView>,
) -> Usage {
    Usage {
        prompt_tokens: count_of(prompt),
        completion_tokens: count_of(completion),
        total_tokens: count_of(total),
    }
}

/// The usage that the three counts of an OpenAI report give; a missing count is zero.
pub fn openai_usage(
    prompt: &Option<JsonItem>,
    completion: &Option<JsonItem>,
    total: &Option<JsonItem>,
) -> (r: Usage)
    ensures
        r == openai_counts(option_item(*prompt), option_item(*completion), option_item(*total)),
{
    Usage {
        prompt_tokens: count(prompt),
        completion_tokens: count(completion),
        total_tokens: count(total),
    }
}

/// The usage in the field `usage` of an OpenAI document.
pub open spec fn openai_report(text: Seq<char>) -> Usage {
    openai_counts(
        json_item(text, "/usage/prompt_tokens"@),
        json_item(text, "/usage/completion_tokens"@),
        json_item(text, "/usage/total_tokens"@),
    )
}

/// The usage in the field `usage` of an OpenAI document.
pub fn read_openai_usage(text: &str) -> (r: Usage)
    ensures
        r == openai_report(text@),
{
    openai_usage(
        &json_at(text, "/usage/prompt_tokens"),
        &json_at(text, "/usage/completion_tokens"),
        &json_at(text, "/usage/total_tokens"),
    )
}

/// The usage that a line of an OpenAI event stream reports: its data, where it is not the end
/// marker and has a usage that is not null.
pub open spec fn openai_line(line: Seq<char>) -> Option<Usage> {
    match strip_prefix(line, "data: "@) {
        None => None,
        Some(data) => if trim(data) == "[DONE]"@ {
            None
        } else {
            match json_item(data, "/usage"@) {
                None => None,
                Some(JsonView::Null) => None,
                Some(_) => Some(openai_report(data)),
            }
        },
    }
}

/// The usage that the last line with one reports.
pub open spec fn openai_lines(ls: Seq<Seq<char>>) -> Option<Usage>
    decreases ls.len(),
{
    if ls.len() == 0 {
        None
    } else {
        match openai_line(ls.last()) {
            Some(u) => Some(u),
            None => openai_lines(ls.drop_last()),
        }
    }
}

/// What a line holds behind `data: `.
fn data_of_line(line: &Vec<char>) -> (r: Option<String>)
    ensures
        crate::text::option_text(r) == strip_prefix(line@, "data: "@),
{
    let mark = chars_of("data: ");
    if occurs(line, &mark, 0) {
        let n: usize = line.len();
        Some(text_of(line, mark.len(), n))
    } else {
        None
    }
}

/// The usage that a line of an OpenAI event stream reports.
fn usage_of_openai_line(line: &Vec<char>) -> (r: Option<Usage>)
    ensures
        r == openai_line(line@),
{
    match data_of_line(line) {
        None => None,
        Some(data) => {
            if crate::text::same(crate::text::trimmed(data.as_str()).as_str(), "[DONE]") {
                return None;
            }
            match json_at(data.as_str(), "/usage") {
                None => None,
                Some(JsonItem::Null) => None,
                Some(_) => Some(read_openai_usage(data.as_str())),
            }
        },
    }
}

/// An OpenAI compatible provider.
pub struct OpenaiAdaptor;

impl OpenaiAdaptor {
    pub fn new() -> (r: Self) {
        OpenaiAdaptor
    }

    pub fn provider(&self) -> (r: ChannelProvider)
        ensures
            r == ChannelProvider::OpenaiCompatible,
    {
        ChannelProvider::OpenaiCompatible
    }

    /// The usage that a chunk of an event stream reports.
    pub fn extract_usage(&self, chunk: &[u8]) -> (r: Option<Usage>)
        ensures
            r == openai_lines(lines(utf8_lossy(chunk@))),
    {
        let text = utf8_lossy_text(chunk);
        let ls = split_lines(&chars_of(text.as_str()));
        let ghost all = lines(text@);
        let mut found: Option<Usage> = None;
        let mut i: usize = 0;
        proof {
            assert(all.take(0) =~= Seq::empty());
        }
        while i < ls.len()
            invariant
                pieces(ls@) == all,
                i <= ls@.len(),
                found == openai_lines(all.take(i as int)),
            decreases ls@.len() - i,
        {
            proof {
                assert(all[i as int] == ls@[i as int]@);
                assert(all.take(i + 1).drop_last() =~= all.take(i as int));
            }
            if let Some(u) = usage_of_openai_line(&ls[i]) {
                found = Some(u);
            }
            i = i + 1;
        }
        proof {
            assert(all.take(i as int) =~= all);
        }
        found
    }
}

/// The token counts that an Anthropic stream has reported so far.
#[derive(Debug, Clone, Copy, PartialEq, Eq, Structural)]
pub struct ClaudeCounts {
    pub input_tokens: Option<u64>,
    pub output_tokens: Option<u64>,
}

/// The fields of an Anthropic event that bear on usage.
#[derive(Debug, PartialEq, Eq)]
pub struct ClaudeEvent {
    pub kind: Option<JsonItem>,
    pub usage: Option<JsonItem>,
    pub output_tokens: Option<JsonItem>,
    pub message_usage: Option<JsonItem>,
    pub input_tokens: Option<JsonItem>,
}

/// The counts after an event: one that starts a message sets the input, one that ends it the
/// output, each where it has a usage at all.
pub open spec fn after_event(
    counts: ClaudeCounts,
    kind: Option<JsonView>,
    usage: Option<JsonView>,
    output_tokens: Option<JsonView>,
    message_usage: Option<JsonView>,
    input_tokens: Option<JsonView>,
) -> ClaudeCounts {
    ClaudeCounts {
        output_tokens: if kind == Some(JsonView::Text("message_delta"@)) && usage is Some {
            number_of(output_tokens)
        } else {
            counts.output_tokens
        },
        input_tokens: if kind == Some(JsonView::Text("message_start"@)) && message_usage is Some {
            number_of(input_tokens)
        } else {
            counts.input_tokens
        },
    }
}

/// The counts after an event.
pub fn apply_event(counts: ClaudeCounts, event: &ClaudeEvent) -> (r: ClaudeCounts)
    ensures
        r == after_event(
            counts,
            option_item(event.kind),
            option_item(event.usage),
            option_item(event.output_tokens),
            option_item(event.message_usage),
            option_item(event.input_tokens),
        ),
{
    let mut r = counts;
    if is_text(&event.kind, "message_delta") && event.usage.is_some() {
        r.output_tokens = number(&event.output_tokens);
    }
    if is_text(&event.kind, "message_start") && event.message_usage.is_some() {
        r.input_tokens = number(&event.input_tokens);
    }
    r
}

/// The counts after a line of an Anthropic event stream.
pub open spec fn claude_line(counts: ClaudeCounts, line: Seq<char>) -> ClaudeCounts {
    match strip_prefix(line, "data: "@) {
        None => counts,
        Some(data) => after_event(
            counts,
            json_item(data, "/type"@),
            json_item(data, "/usage"@),
            json_item(data, "/usage/output_tokens"@),
            json_item(data, "/message/usage"@),
            json_item(data, "/message/usage/input_tokens"@),
        ),
    }
}

/// The counts after the lines of an Anthropic event stream.
pub open spec fn claude_lines(ls: Seq<Seq<char>>) -> ClaudeCounts
    decreases ls.len(),
{
    if ls.len() == 0 {
        ClaudeCounts { input_tokens: None, output_tokens: None }
    } else {
        claude_line(claude_lines(ls.drop_last()), ls.last())
    }
}

/// A count, zero where it is missing.
pub open spec fn or_zero(n: Option<u64>) -> int {
    match n {
        Some(k) => k as int,
        None => 0,
    }
}

impl ClaudeCounts {
    /// The sum of both counts fits a counter.
    pub open spec fn sum_fits(self) -> bool {
        or_zero(self.input_tokens) + or_zero(self.output_tokens) <= u64::MAX
    }

    /// The usage that the counts give; none where neither was reported.
    pub open spec fn spec_usage(self) -> Option<Usage> {
        if self.input_tokens is None && self.output_tokens is None {
            None
        } else {
            Some(
                Usage {
                    prompt_tokens: or_zero(self.input_tokens) as u64,
                    completion_tokens: or_zero(self.output_tokens) as u64,
                    total_tokens: (or_zero(self.input_tokens) + or_zero(
                        self.output_tokens,
                    )) as u64,
                },
            )
        }
    }

    /// The usage that the counts give, where their sum fits a counter.
    pub fn checked_usage(&self) -> (r: Option<Option<Usage>>)
        ensures
            r == if self.sum_fits() {
                Some(self.spec_usage())
            } else {
                None
            },
    {
        let input: u64 = match self.input_tokens {
            Some(n) => n,
            None => 0,
        };
        let output: u64 = match self.output_tokens {
            Some(n) => n,
            None => 0,
        };
        if output > u64::MAX - input {
            return None;
        }
        if self.input_tokens.is_none() && self.output_tokens.is_none() {
            return Some(None);
        }
        Some(
            Some(
                Usage {
                    prompt_tokens: input,
                    completion_tokens: output,
                    total_tokens: input + output,
                },
            ),
        )
    }
}

/// Anthropic.
pub struct ClaudeAdaptor;

impl ClaudeAdaptor {
    pub fn new() -> (r: Self) {
        ClaudeAdaptor
    }

    pub fn provider(&self) -> (r: ChannelProvider)
        ensures
            r == ChannelProvider::Anthropic,
    {
        ChannelProvider::Anthropic
    }

    /// The token counts that a chunk of an event stream reports.
    pub fn read_counts(&self, chunk: &[u8]) -> (r: ClaudeCounts)
        ensures
            r == claude_lines(lines(utf8_lossy(chunk@))),
    {
        let text = utf8_lossy_text(chunk);
        let ls = split_lines(&chars_of(text.as_str()));
        let ghost all = lines(text@);
        let mut counts = ClaudeCounts { input_tokens: None, output_tokens: None };
        let mut i: usize = 0;
        proof {
            assert(all.take(0) =~= Seq::empty());
        }
        while i < ls.len()
            invariant
                pieces(ls@) == all,
                i <= ls@.len(),
                counts == claude_lines(all.take(i as int)),
            decreases ls@.len() - i,
        {
            proof {
                assert(all[i as int] == ls@[i as int]@);
                assert(all.take(i + 1).drop_last() =~= all.take(i as int));
            }
            if let Some(data) = data_of_line(&ls[i]) {
                let event = ClaudeEvent {
                    kind: json_at(data.as_str(), "/type"),
                    usage: json_at(data.as_str(), "/usage"),
                    output_tokens: json_at(data.as_str(), "/usage/output_tokens"),
                    message_usage: json_at(data.as_str(), "/message/usage"),
                    input_tokens: json_at(data.as_str(), "/message/usage/input_tokens"),
                };
                counts = apply_event(counts, &event);
            }
            i = i + 1;
        }
        proof {
            assert(all.take(i as int) =~= all);
        }
        counts
    }

    /// The usage that a chunk of an event stream reports.
    pub fn extract_usage(&self, chunk: &[u8]) -> (r: Option<Usage>)
        requires
            claude_lines(lines(utf8_lossy(chunk@))).sum_fits(),
        ensures
            r == claude_lines(lines(utf8_lossy(chunk@))).spec_usage(),
    {
        match self.read_counts(chunk).checked_usage() {
            Some(usage) => usage,
            None => None,
        }
    }

    /// The usage that a chunk of an event stream reports; nothing at all where the sum of its
    /// counts does not fit a counter.
    pub fn checked_extract_usage(&self, chunk: &[u8]) -> (r: Option<Option<Usage>>)
        ensures
            r == if claude_lines(lines(utf8_lossy(chunk@))).sum_fits() {
                Some(claude_lines(lines(utf8_lossy(chunk@))).spec_usage())
            } else {
                None
            },
    {
        match self.read_counts(chunk).checked_usage() {
            Some(_) => Some(self.extract_usage(chunk)),
            None => None,
        }
    }
}

/// A base URL whose last segment names a version is kept: the path follows it.
pub proof fn law_named_version_is_kept(
    front: Seq<char>,
    digit: char,
    rest: Seq<char>,
    path: Seq<char>,
)
    requires
        '0' <= digit && digit <= '9',
        forall|i: int| 0 <= i < rest.len() ==> rest[i] != '/',
    ensures
        endpoint(front + seq!['/', 'v', digit] + rest, path) == front + seq!['/', 'v', digit] + rest
            + path,
        endpoint(seq!['v', digit] + rest, path) == seq!['v', digit] + rest + path,
{
    let base = front + seq!['/', 'v', digit] + rest;
    let n = front.len() as int;
    lemma_last_segment(base, n + 1);
    assert(base.last() != '/');
    assert(last_segment(base)[0] == base[n + 1]);
    assert(last_segment(base)[1] == base[n + 2]);
    let bare = seq!['v', digit] + rest;
    lemma_last_segment(bare, 0);
    assert(bare.last() != '/');
    assert(last_segment(bare) =~= bare);
}

/// A base URL whose last segment does not begin with a `v` and a digit gets the first version in
/// between.
pub proof fn law_missing_version_is_added(front: Seq<char>, segment: Seq<char>, path: Seq<char>)
    requires
        front.len() == 0 || front.last() == '/',
        segment.len() > 0,
        forall|i: int| 0 <= i < segment.len() ==> segment[i] != '/',
        segment[0] != 'v' || segment.len() < 2 || segment[1] < '0' || segment[1] > '9',
    ensures
        endpoint(front + segment, path) == front + segment + "/v1"@ + path,
{
    let base = front + segment;
    lemma_last_segment(base, front.len() as int);
    assert(base.last() != '/');
    assert(last_segment(base) =~= segment);
}

/// The usage that an OpenAI document reports is read field by field: each count from its own
/// field, and nothing where that holds no number.
pub proof fn law_openai_usage_is_read_by_field(text: Seq<char>, n: u64)
    ensures
        json_item(text, "/usage/prompt_tokens"@) == Some(JsonView::Number(Some(n)))
            ==> openai_report(text).prompt_tokens == n,
        json_item(text, "/usage/completion_tokens"@) == Some(JsonView::Number(Some(n)))
            ==> openai_report(text).completion_tokens == n,
        json_item(text, "/usage/total_tokens"@) == Some(JsonView::Number(Some(n)))
            ==> openai_report(text).total_tokens == n,
        !(json_item(text, "/usage/prompt_tokens"@) matches Some(JsonView::Number(Some(_))))
            ==> openai_report(text).prompt_tokens == 0,
        !(json_item(text, "/usage/completion_tokens"@) matches Some(JsonView::Number(Some(_))))
            ==> openai_report(text).completion_tokens == 0,
        !(json_item(text, "/usage/total_tokens"@) matches Some(JsonView::Number(Some(_))))
            ==> openai_report(text).total_tokens == 0,
{
}

/// A line reports a usage exactly where it is a data line whose document has one that is not
/// null; the mark of the end has none.
pub proof fn law_openai_data_lines_report(line: Seq<char>, data: Seq<char>)
    ensures
        openai_line("data: "@ + data) is Some <==> {
            &&& trim(data) != "[DONE]"@
            &&& json_item(data, "/usage"@) is Some
            &&& json_item(data, "/usage"@) != Some(JsonView::Null)
        },
        openai_line("data: "@ + data) matches Some(u) ==> u == openai_report(data),
        openai_line(line) is Some ==> exists|d: Seq<char>| line == #[trigger] ("data: "@ + d),
{
    law_prefix_is_taken_off("data: "@, data, line);
    if let Some(d) = strip_prefix(line, "data: "@) {
        assert(line == "data: "@ + d);
    }
}

/// Of the lines that report a usage the last one counts.
pub proof fn law_last_openai_report_counts(ls: Seq<Seq<char>>, i: int)
    requires
        0 <= i < ls.len(),
        forall|j: int| i < j < ls.len() ==> openai_line(#[trigger] ls[j]) is None,
    ensures
        openai_line(ls[i]) is Some ==> openai_lines(ls) == openai_line(ls[i]),
        i == 0 && openai_line(ls[i]) is None ==> openai_lines(ls) is None,
    decreases ls.len(),
{
    if i < ls.len() - 1 {
        let front = ls.drop_last();
        assert(openai_line(ls.last()) is None);
        assert forall|j: int| i < j < front.len() implies openai_line(#[trigger] front[j]) is None by {
            assert(front[j] == ls[j]);
        }
        law_last_openai_report_counts(front, i);
    } else if i == 0 {
        assert(openai_lines(ls.drop_last()) is None);
    }
}

/// An event of an Anthropic stream sets the count that it is about: the end of a message that of
/// the output, its start that of the input. All else stays.
pub proof fn law_anthropic_events_set_their_count(
    counts: ClaudeCounts,
    kind: Option<JsonView>,
    usage: Option<JsonView>,
    output_tokens: Option<JsonView>,
    message_usage: Option<JsonView>,
    input_tokens: Option<JsonView>,
    n: u64,
)
    ensures
        ({
            let r = after_event(
                counts,
                kind,
                usage,
                output_tokens,
                message_usage,
                input_tokens,
            );
            let ends = kind == Some(JsonView::Text("message_delta"@)) && usage is Some;
            let starts = kind == Some(JsonView::Text("message_start"@)) && message_usage is Some;
            &&& ends && output_tokens == Some(JsonView::Number(Some(n))) ==> r.output_tokens
                == Some(n)
            &&& starts && input_tokens == Some(JsonView::Number(Some(n))) ==> r.input_tokens
                == Some(n)
            &&& !ends ==> r.output_tokens == counts.output_tokens
            &&& !starts ==> r.input_tokens == counts.input_tokens
            &&& ends ==> r.input_tokens == counts.input_tokens
            &&& starts ==> r.output_tokens == counts.output_tokens
        }),
{
    reveal_strlit("message_delta");
    reveal_strlit("message_start");
    assert("message_delta"@[8] == 'd');
    assert("message_start"@[8] == 's');
}

/// A chunk of an Anthropic stream is read line by line: a data line by what its document holds,
/// and any other line not at all.
pub proof fn law_anthropic_lines_are_read_in_order(
    ls: Seq<Seq<char>>,
    data: Seq<char>,
    other: Seq<char>,
)
    requires
        !occurs_at(other, "data: "@, 0),
    ensures
        claude_lines(Seq::empty()) == (ClaudeCounts { input_tokens: None, output_tokens: None }),
        claude_lines(ls.push("data: "@ + data)) == after_event(
            claude_lines(ls),
            json_item(data, "/type"@),
            json_item(data, "/usage"@),
            json_item(data, "/usage/output_tokens"@),
            json_item(data, "/message/usage"@),
            json_item(data, "/message/usage/input_tokens"@),
        ),
        claude_lines(ls.push(other)) == claude_lines(ls),
{
    law_prefix_is_taken_off("data: "@, data, other);
    assert(ls.push("data: "@ + data).drop_last() =~= ls);
    assert(ls.push(other).drop_last() =~= ls);
}

/// Whatever usage an Anthropic stream reports, its total is the sum of its parts, and a part that
/// was not counted is nothing. A usage is reported as soon as either part was counted.
pub proof fn law_anthropic_total_is_the_sum(counts: ClaudeCounts, input: u64, output: u64)
    requires
        input + output <= u64::MAX,
        match counts.input_tokens {
            Some(n) => n == input,
            None => input == 0,
        },
        match counts.output_tokens {
            Some(n) => n == output,
            None => output == 0,
        },
    ensures
        counts.sum_fits(),
        counts.spec_usage() is Some <==> (counts.input_tokens is Some || counts.output_tokens
            is Some),
        counts.spec_usage() matches Some(u) ==> {
            &&& u.prompt_tokens == input
            &&& u.completion_tokens == output
            &&& u.total_tokens == u.prompt_tokens + u.completion_tokens
        },
{
}

} // verus!

//! The analysis step: the prompt that presents the new articles, and the reading of the
//! model's reply.

use vstd::prelude::*;
use vstd::string::StringExecFns;

use crate::feed::{article_views, Article, ArticleView};
use crate::text::{
    lemma_join_holds_each, lemma_occurs_within, occurs_at,
    append_chars, append_decimal, append_str, chars_of, decimal, join, keep_some, lemma_join_push,
    strip_prefix_all, strip_suffix_all, to_string, trim,
};

verus! {

/// How many characters of an article's summary the prompt shows.
pub const ARTICLE_TEXT_LIMIT: usize = 5_000;

/// `s` cut after `n` characters, with `...` marking the cut where there was more.
pub open spec fn truncated(s: Seq<char>, n: nat) -> Seq<char> {
    if s.len() > n {
        s.take(n as int) + "..."@
    } else {
        s
    }
}

fn truncate_chars(s: &[char], max_chars: usize) -> (v: Vec<char>)
    ensures
        v@ == truncated(s@, max_chars as nat),
{
    if s.len() > max_chars {
        let mut v = crate::text::sub_chars(s, 0, max_chars);
        append_str(&mut v, "...");
        assert(s@.subrange(0, max_chars as int) =~= s@.take(max_chars as int));
        v
    } else {
        crate::text::sub_chars(s, 0, s.len())
    }
}

/// `value` cut after `max_chars` characters, with `...` marking the cut where there was more.
pub fn truncate_text(value: &str, max_chars: usize) -> (r: String)
    ensures
        r@ == truncated(value@, max_chars as nat),
{
    let s = chars_of(value);
    let v = truncate_chars(s.as_slice(), max_chars);
    to_string(&v)
}

/// The prompt's entry for the article numbered `number`.
pub open spec fn prompt_entry(number: nat, a: ArticleView) -> Seq<char> {
    decimal(number) + ". Judul: "@ + a.title + "\nURL: "@ + a.url + "\nSumber: "@
        + a.source_name + "\nSumber RSS/API: "@ + a.source_feed + "\nCuplikan: "@ + truncated(
        a.summary,
        ARTICLE_TEXT_LIMIT as nat,
    ) + "\n\n"@
}

/// The prompt that presents the articles: a heading, then one numbered entry per article.
pub open spec fn articles_prompt(articles: Seq<ArticleView>) -> Seq<char> {
    "Artikel baru yang perlu dianalisis dan diranking:\n\n"@ + join(
        Seq::new(articles.len(), |i: int| prompt_entry((i + 1) as nat, articles[i])),
        seq![],
    )
}

fn prompt_entry_chars(number: u64, a: &Article) -> (v: Vec<char>)
    ensures
        v@ == prompt_entry(number as nat, a@),
{
    let mut out: Vec<char> = Vec::new();
    append_decimal(&mut out, number);
    append_str(&mut out, ". Judul: ");
    append_str(&mut out, a.title.as_str());
    append_str(&mut out, "\nURL: ");
    append_str(&mut out, a.url.as_str());
    append_str(&mut out, "\nSumber: ");
    append_str(&mut out, a.source_name.as_str());
    append_str(&mut out, "\nSumber RSS/API: ");
    append_str(&mut out, a.source_feed.as_str());
    append_str(&mut out, "\nCuplikan: ");
    let s = chars_of(a.summary.as_str());
    let t = truncate_chars(s.as_slice(), ARTICLE_TEXT_LIMIT);
    append_chars(&mut out, t.as_slice());
    append_str(&mut out, "\n\n");
    assert(out@ =~= prompt_entry(number as nat, a@));
    out
}

/// The prompt that presents the new articles for analysis and ranking.
pub fn build_articles_prompt(articles: &[Article]) -> (r: String)
    ensures
        r@ == articles_prompt(article_views(articles@)),
{
    let ghost views = article_views(articles@);
    let ghost entries = Seq::new(views.len(), |i: int| prompt_entry((i + 1) as nat, views[i]));
    let mut body: Vec<char> = Vec::new();
    let mut i: usize = 0;
    while i < articles.len()
        invariant
            i <= articles@.len(),
            views == article_views(articles@),
            entries == Seq::new(views.len(), |i: int| prompt_entry((i + 1) as nat, views[i])),
            body@ == join(entries.take(i as int), seq![]),
        decreases articles@.len() - i,
    {
        let number: u64 = (i + 1) as u64;
        let e = prompt_entry_chars(number, &articles[i]);
        proof {
            lemma_join_push(entries.take(i as int), seq![], e@);
            assert(entries.take(i as int).push(e@) =~= entries.take(i + 1));
        }
        append_chars(&mut body, e.as_slice());
        assert(body@ =~= join(entries.take(i + 1), seq![]));
        i = i + 1;
    }
    assert(entries.take(i as int) =~= entries);
    let mut out = chars_of("Artikel baru yang perlu dianalisis dan diranking:\n\n");
    append_chars(&mut out, body.as_slice());
    to_string(&out)
}

/// The model's reply text without the Markdown code fence it may come wrapped in: trimmed,
/// every leading `` ```json `` and then every leading and trailing `` ``` `` removed, and
/// trimmed again.
pub open spec fn unfenced(value: Seq<char>) -> Seq<char> {
    trim(
        strip_suffix_all(
            strip_prefix_all(strip_prefix_all(trim(value), "```json"@), "```"@),
            "```"@,
        ),
    )
}

/// The model's reply text without the Markdown code fence it may come wrapped in.
pub fn strip_json_code_fence(value: &str) -> (r: String)
    ensures
        r@ == unfenced(value@),
{
    let t = crate::text::trim_str(value);
    let json = chars_of("```json");
    let fence = chars_of("```");
    let a = crate::text::strip_prefix_chars(t.as_slice(), json.as_slice());
    let b = crate::text::strip_prefix_chars(a.as_slice(), fence.as_slice());
    let c = crate::text::strip_suffix_chars(b.as_slice(), fence.as_slice());
    let d = crate::text::trim_chars(c.as_slice());
    to_string(&d)
}


/// A JSON value, as the reply of the model's API holds it.
pub enum JsonValue {
    Null,
    Bool(bool),
    /// A number, as `serde_json` renders it (`1e2` becomes `100.0`).
    Number(String),
    Str(String),
    Array(Vec<JsonValue>),
    /// An object's members in their order; their keys are distinct.
    Object(Vec<JsonMember>),
}

/// One member of a JSON object.
pub struct JsonMember {
    pub key: String,
    pub value: JsonValue,
}

/// The value of the first member named `key`.
pub open spec fn member_value(members: Seq<JsonMember>, key: Seq<char>) -> Option<JsonValue>
    decreases members.len(),
{
    if members.len() == 0 {
        None
    } else if members[0].key@ == key {
        Some(members[0].value)
    } else {
        member_value(members.skip(1), key)
    }
}

/// The member `key` of an object; none for anything else: `serde_json::Value::get`.
pub open spec fn json_field(v: JsonValue, key: Seq<char>) -> Option<JsonValue> {
    match v {
        JsonValue::Object(members) => member_value(members@, key),
        _ => None,
    }
}

/// The member `key` of an object.
pub fn json_get<'a>(v: &'a JsonValue, key: &str) -> (r: Option<&'a JsonValue>)
    ensures
        r matches Some(x) ==> json_field(*v, key@) == Some(*x),
        r is None ==> json_field(*v, key@) is None,
{
    match v {
        JsonValue::Object(members) => {
            let k = chars_of(key);
            let mut i: usize = 0;
            assert(members@.skip(0) =~= members@);
            while i < members.len()
                invariant
                    i <= members@.len(),
                    k@ == key@,
                    json_field(*v, key@) == member_value(members@, key@),
                    member_value(members@, key@) == member_value(members@.skip(i as int), key@),
                decreases members@.len() - i,
            {
                let mk = chars_of(members[i].key.as_str());
                assert(members@.skip(i as int)[0] == members@[i as int]);
                if crate::text::chars_eq(mk.as_slice(), k.as_slice()) {
                    assert(mk@ == members@[i as int].key@);
                    assert(member_value(members@.skip(i as int), key@) == Some(
                        members@[i as int].value,
                    ));
                    return Some(&members[i].value);
                }
                assert(members@.skip(i as int).skip(1) =~= members@.skip(i + 1));
                i = i + 1;
            }
            None
        },
        _ => None,
    }
}

/// The text of a member `key` that holds a string.
pub open spec fn text_field(v: JsonValue, key: Seq<char>) -> Option<Seq<char>> {
    match json_field(v, key) {
        Some(JsonValue::Str(t)) => Some(t@),
        _ => None,
    }
}

/// The texts of the content parts of one output item: each part's `text`, where it is a
/// string, in order.
pub open spec fn item_texts(item: JsonValue) -> Seq<Seq<char>> {
    match json_field(item, "content"@) {
        Some(JsonValue::Array(parts)) => keep_some(
            parts@.map_values(|p: JsonValue| text_field(p, "text"@)),
        ),
        _ => seq![],
    }
}

/// The texts of the content parts of all output items, in order.
pub open spec fn output_texts(items: Seq<JsonValue>) -> Seq<Seq<char>>
    decreases items.len(),
{
    if items.len() == 0 {
        seq![]
    } else {
        output_texts(items.drop_last()) + item_texts(items.last())
    }
}

/// The reply text of a response of the model's API: its `output_text`, where that is a
/// string; else the texts of the content parts of its `output` items run together, where
/// there is any; else none.
pub open spec fn response_text(response: JsonValue) -> Option<Seq<char>> {
    match text_field(response, "output_text"@) {
        Some(t) => Some(t),
        None => match json_field(response, "output"@) {
            Some(JsonValue::Array(items)) => if output_texts(items@).len() == 0 {
                None
            } else {
                Some(join(output_texts(items@), seq![]))
            },
            _ => None,
        },
    }
}

fn push_item_texts(parts_out: &mut Vec<Vec<char>>, item: &JsonValue)
    ensures
        crate::text::char_views(final(parts_out)@) == crate::text::char_views(old(parts_out)@)
            + item_texts(*item),
{
    let ghost start = crate::text::char_views(parts_out@);
    match json_get(item, "content") {
        Some(JsonValue::Array(parts)) => {
            let ghost texts = parts@.map_values(|p: JsonValue| text_field(p, "text"@));
            let mut i: usize = 0;
            while i < parts.len()
                invariant
                    i <= parts@.len(),
                    texts == parts@.map_values(|p: JsonValue| text_field(p, "text"@)),
                    crate::text::char_views(parts_out@) == start + keep_some(
                        texts.take(i as int),
                    ),
                decreases parts@.len() - i,
            {
                assert(texts.take(i + 1).drop_last() =~= texts.take(i as int));
                assert(texts.take(i + 1).last() == texts[i as int]);
                match json_get(&parts[i], "text") {
                    Some(JsonValue::Str(t)) => {
                        let ghost prev = crate::text::char_views(parts_out@);
                        parts_out.push(chars_of(t.as_str()));
                        assert(crate::text::char_views(parts_out@) =~= prev.push(t@));
                    },
                    _ => {},
                }
                i = i + 1;
                assert(crate::text::char_views(parts_out@) =~= start + keep_some(
                    texts.take(i as int),
                ));
            }
            assert(texts.take(i as int) =~= texts);
        },
        _ => {
            assert(start + item_texts(*item) =~= start);
        },
    }
}

/// The reply text of a response of the model's API.
pub fn extract_openai_response_text(response: &JsonValue) -> (r: Option<String>)
    ensures
        r matches Some(t) ==> response_text(*response) == Some(t@),
        r is None ==> response_text(*response) is None,
{
    if let Some(JsonValue::Str(t)) = json_get(response, "output_text") {
        return Some(t.clone());
    }
    let items = match json_get(response, "output") {
        Some(JsonValue::Array(items)) => items,
        _ => {
            return None;
        },
    };
    let mut parts: Vec<Vec<char>> = Vec::new();
    let mut i: usize = 0;
    while i < items.len()
        invariant
            i <= items@.len(),
            crate::text::char_views(parts@) == output_texts(items@.take(i as int)),
        decreases items@.len() - i,
    {
        assert(items@.take(i + 1).drop_last() =~= items@.take(i as int));
        push_item_texts(&mut parts, &items[i]);
        i = i + 1;
    }
    assert(items@.take(i as int) =~= items@);
    if parts.len() == 0 {
        None
    } else {
        let none: Vec<char> = Vec::new();
        let v = crate::text::join_chars(&parts, none.as_slice());
        Some(to_string(&v))
    }
}


/// A `serde_json` value.
#[verifier::external_type_specification]
#[verifier::external_body]
pub struct ExSerdeJsonValue(serde_json::Value);

/// A `serde_json` parse error.
#[verifier::external_type_specification]
#[verifier::external_body]
pub struct ExSerdeJsonError(serde_json::Error);

/// What `serde_json::from_str::<serde_json::Value>` makes of a text, in this library's JSON
/// type: none where the text is not one JSON value, or nests arrays and objects more than 128
/// deep, the most that `serde_json` reads.
pub uninterp spec fn json_document(text: Seq<char>) -> Option<JsonValue>;

/// Takes a `serde_json::Value` over into this library's JSON type, variant by variant: numbers
/// as `serde_json` renders them, objects by their members in the order the value holds them. It states
/// nothing of its own; `parse_json`, whose body alone calls it, states the whole parse.
#[verifier::external_body]
fn json_value_of(v: serde_json::Value) -> JsonValue {
    match v {
        serde_json::Value::Null => JsonValue::Null,
        serde_json::Value::Bool(b) => JsonValue::Bool(b),
        serde_json::Value::Number(n) => JsonValue::Number(n.to_string()),
        serde_json::Value::String(t) => JsonValue::Str(t),
        serde_json::Value::Array(items) => JsonValue::Array(items.into_iter().map(json_value_of).collect()),
        serde_json::Value::Object(map) => JsonValue::Object(
            map.into_iter().map(|(key, value)| JsonMember { key, value: json_value_of(value) }).collect(),
        ),
    }
}

/// `serde_json::from_str::<serde_json::Value>`: the claim is that it fails exactly where the
/// text is not one JSON value or nests more than 128 deep, and that what it returns depends on
/// the text alone, named `json_document`. Its error is passed on as it comes.
#[verifier::external_body]
fn parse_json(text: &str) -> (r: Result<JsonValue, serde_json::Error>)
    ensures
        match r {
            Ok(v) => json_document(text@) == Some(v),
            Err(_) => json_document(text@) is None,
        },
{
    match serde_json::from_str::<serde_json::Value>(text) {
        Ok(v) => Ok(json_value_of(v)),
        Err(e) => Err(e),
    }
}

/// Why the analysis step gave no usable reply.
pub enum ReplyError {
    /// The API answered with an error status; the message names the status and the body.
    Status(String),
    /// The response body is not JSON.
    NotJson(serde_json::Error),
    /// The response holds no reply text.
    NoText,
}

/// The message for a response without reply text.
pub const NO_TEXT_MESSAGE: &'static str = "OpenAI Responses API tidak mengembalikan output teks.";

/// The message for an error status of the API.
pub open spec fn status_message(status: Seq<char>, body: Seq<char>) -> Seq<char> {
    "OpenAI Responses API error "@ + status + ": "@ + body
}

/// The reply of the analysis step: its text as it came, and that text without a code fence.
pub struct AnalysisReply {
    pub raw: String,
    pub json: String,
}

/// The reply of the analysis step, from the response's status and body: an error message for
/// an error status, a parse error for a body that is not JSON, no text for a response
/// without reply text; else the reply text and the same text without its code fence.
pub fn analysis_reply(status_ok: bool, status: &str, body: &str) -> (r: Result<
    AnalysisReply,
    ReplyError,
>)
    ensures
        !status_ok ==> (r matches Err(ReplyError::Status(m)) && m@ == status_message(
            status@,
            body@,
        )),
        status_ok && json_document(body@) is None ==> r matches Err(ReplyError::NotJson(_)),
        status_ok ==> (json_document(body@) matches Some(v) && response_text(v) is None
            <==> r matches Err(ReplyError::NoText)),
        r matches Ok(rep) ==> status_ok && (json_document(body@) matches Some(v)
            && response_text(v) == Some(rep.raw@)) && rep.json@ == unfenced(rep.raw@),
        status_ok && (json_document(body@) matches Some(v) && response_text(v) is Some) ==> r is Ok,
{
    if !status_ok {
        let mut m = chars_of("OpenAI Responses API error ");
        append_str(&mut m, status);
        append_str(&mut m, ": ");
        append_str(&mut m, body);
        return Err(ReplyError::Status(to_string(&m)));
    }
    let doc = match parse_json(body) {
        Ok(v) => v,
        Err(e) => {
            return Err(ReplyError::NotJson(e));
        },
    };
    match extract_openai_response_text(&doc) {
        Some(raw) => {
            let json = strip_json_code_fence(raw.as_str());
            Ok(AnalysisReply { raw, json })
        },
        None => Err(ReplyError::NoText),
    }
}

/// The prompt holds an entry for each article, numbered by its place: the article at index
/// `i` appears as entry `i + 1`, after the heading.
pub proof fn lemma_prompt_lists_every_article(articles: Seq<ArticleView>, i: int)
    requires
        0 <= i < articles.len(),
    ensures
        exists|k: int| #[trigger] occurs_at(articles_prompt(articles), prompt_entry((i + 1) as nat, articles[i]), k),
        occurs_at(
            articles_prompt(articles),
            "Artikel baru yang perlu dianalisis dan diranking:\n\n"@,
            0,
        ),
{
    let heading = "Artikel baru yang perlu dianalisis dan diranking:\n\n"@;
    let entries = Seq::new(articles.len(), |j: int| prompt_entry((j + 1) as nat, articles[j]));
    let body = join(entries, seq![]);
    lemma_join_holds_each(entries, seq![], i);
    let k = choose|k: int| occurs_at(body, entries[i], k);
    lemma_occurs_within(heading, body, seq![], entries[i], k);
    assert(heading + body + seq![] =~= articles_prompt(articles));
    assert(articles_prompt(articles).subrange(0, heading.len() as int) =~= heading);
}

/// A truncated text keeps at most `n` characters of the original, in front, and is at most
/// three characters longer than that.
pub proof fn lemma_truncated_prefix(s: Seq<char>, n: nat)
    ensures
        truncated(s, n).len() <= n + 3,
        truncated(s, n).len() <= s.len() + 3,
        truncated(s, n).take(crate::text::take_chars(s, n).len() as int)
            == crate::text::take_chars(s, n),
{
    reveal_strlit("...");
    if s.len() > n {
        assert(truncated(s, n).take(n as int) =~= s.take(n as int));
    } else {
        assert(s.take(s.len() as int) =~= s);
    }
}

} // verus!

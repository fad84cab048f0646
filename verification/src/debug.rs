//! Diagnostic reports: the shape of the current-summoner reply, the LCU
//! swagger paths about mastery and collections, and a trace of the mastery
//! lookup.

use vstd::prelude::*;
use serde_json::Value;
use crate::client::{LcuReply, lcu_url, lcu_url_text};
use crate::credentials::LcuCredentials;
use crate::mastery::{CurrentSummoner, mastery_candidate_ids, mastery_ids, mastery_templates, paths_for_id,
    puuid_text, texts};
use crate::number::{decimal_i64, decimal_text, decimal_digits, decimal_u64};
use crate::text::{is_at_char_boundary, chars_of, joined, contains_chars, contains_text, head_preview, head_preview_cuttable,
    head_preview_text, lowercase, replace_all, replace_chars, split_chars, split_on, string_of,
    strip_braces, strip_braces_exec, tail_preview, tail_preview_cuttable, tail_preview_text,
    unicode_lowercase, utf8_len};

verus! {

/// One value of a JSON object, as far as the summoner report looks into it.
pub enum JsonShape {
    Null,
    Bool(bool),
    /// A number, in the text that `serde_json` writes for it.
    Number(String),
    Text(String),
    /// An array and its length.
    Array(usize),
    Object,
}

/// One member of a JSON object.
pub struct JsonMember {
    pub key: String,
    pub value: JsonShape,
}

/// What the summoner report shows of one value.
pub enum FieldPreview {
    /// Shown as the string `"null"`.
    Null,
    Bool(bool),
    /// Shown as the number's text.
    Number(String),
    /// A string: its length in bytes and a preview of its end.
    Text { length: usize, preview: String },
    /// An array: its length.
    Array { length: usize },
    Object,
}

/// One field of the summoner report.
pub struct FieldReport {
    pub key: String,
    pub preview: FieldPreview,
}

/// The shape of the current-summoner reply: its keys, and a preview of each value.
pub struct SummonerDebugReport {
    pub keys: Vec<String>,
    pub fields: Vec<FieldReport>,
}

/// What a JSON value is, as far as the summoner report looks into it.
pub enum JsonShapeView {
    Null,
    Bool(bool),
    Number(Seq<char>),
    Text(Seq<char>),
    Array(usize),
    Object,
}

impl View for JsonShape {
    type V = JsonShapeView;

    open spec fn view(&self) -> JsonShapeView {
        match self {
            JsonShape::Null => JsonShapeView::Null,
            JsonShape::Bool(b) => JsonShapeView::Bool(*b),
            JsonShape::Number(n) => JsonShapeView::Number(n@),
            JsonShape::Text(t) => JsonShapeView::Text(t@),
            JsonShape::Array(n) => JsonShapeView::Array(*n),
            JsonShape::Object => JsonShapeView::Object,
        }
    }
}

/// The members of an object: each key with the shape of its value.
pub open spec fn members_seq(m: Seq<JsonMember>) -> Seq<(Seq<char>, JsonShapeView)> {
    m.map_values(|x: JsonMember| (x.key@, x.value@))
}

/// The view of a decoded reply.
pub open spec fn members_view(r: Result<Option<Vec<JsonMember>>, String>) -> Result<Option<Seq<(Seq<char>, JsonShapeView)>>, Seq<char>> {
    match r {
        Err(e) => Err(e@),
        Ok(None) => Ok(None),
        Ok(Some(m)) => Ok(Some(members_seq(m@))),
    }
}

/// What `serde_json::from_str::<serde_json::Value>` makes of `body`: the
/// error's text, `None` when the value is not an object, else each key with
/// the shape of its value, in the order of the object's map.
pub uninterp spec fn json_object_members(body: Seq<char>) -> Result<Option<Seq<(Seq<char>, JsonShapeView)>>, Seq<char>>;

/// Decodes `body` with `serde_json::from_str::<serde_json::Value>` and lists
/// the members of the object (`Value::as_object`, `Map::iter`), each value by
/// its variant. Trusted: the result is named `json_object_members` of the body.
#[verifier::external_body]
pub(crate) fn decode_json_object(body: &str) -> (r: Result<Option<Vec<JsonMember>>, String>)
    ensures
        members_view(r) == json_object_members(body@),
{
    let v: Value = serde_json::from_str(body).map_err(|e| e.to_string())?;
    Ok(v.as_object().map(|o| o.iter().map(|(k, x)| JsonMember { key: k.clone(), value: match x {
        Value::Null => JsonShape::Null,
        Value::Bool(b) => JsonShape::Bool(*b),
        Value::Number(n) => JsonShape::Number(n.to_string()),
        Value::String(t) => JsonShape::Text(t.clone()),
        Value::Array(a) => JsonShape::Array(a.len()),
        Value::Object(_) => JsonShape::Object,
    } }).collect()))
}

/// Whether the report can preview `v` (a long string needs a character
/// boundary 4 bytes before its end).
pub open spec fn shape_previewable(v: JsonShapeView) -> bool {
    match v {
        JsonShapeView::Text(s) => tail_preview_cuttable(s),
        _ => true,
    }
}

/// Whether the report can preview every member.
pub open spec fn members_previewable(m: Seq<(Seq<char>, JsonShapeView)>) -> bool {
    forall|i: int| 0 <= i < m.len() ==> shape_previewable(#[trigger] m[i].1)
}

/// Whether `p` previews `v`.
pub open spec fn previews(v: JsonShapeView, p: FieldPreview) -> bool {
    match v {
        JsonShapeView::Null => p is Null,
        JsonShapeView::Bool(b) => p == FieldPreview::Bool(b),
        JsonShapeView::Number(n) => p matches FieldPreview::Number(m) && m@ == n,
        JsonShapeView::Text(s) => p matches FieldPreview::Text { length, preview } && length == utf8_len(s)
            && preview@ == tail_preview_text(s),
        JsonShapeView::Array(n) => p == FieldPreview::Array { length: n },
        JsonShapeView::Object => p is Object,
    }
}

/// Whether `report` lists the members `m`: their keys, and a field per member
/// with its key and a preview of its value.
pub open spec fn reports_members(report: SummonerDebugReport, m: Seq<(Seq<char>, JsonShapeView)>) -> bool {
    &&& report.keys@.len() == m.len()
    &&& report.fields@.len() == m.len()
    &&& forall|i: int| 0 <= i < m.len() ==> {
        &&& #[trigger] report.keys@[i]@ == m[i].0
        &&& report.fields@[i].key@ == m[i].0
        &&& previews(m[i].1, report.fields@[i].preview)
    }
}

fn preview_of(v: &JsonShape) -> (p: FieldPreview)
    requires
        shape_previewable(v@),
    ensures
        previews(v@, p),
{
    match v {
        JsonShape::Null => FieldPreview::Null,
        JsonShape::Bool(b) => FieldPreview::Bool(*b),
        JsonShape::Number(n) => FieldPreview::Number(n.clone()),
        JsonShape::Text(s) => {
            let length = s.as_str().as_bytes().len();
            FieldPreview::Text { length, preview: tail_preview(s.as_str()) }
        },
        JsonShape::Array(n) => FieldPreview::Array { length: *n },
        JsonShape::Object => FieldPreview::Object,
    }
}

/// The message when the current-summoner endpoint does not answer 200.
pub fn summoner_debug_status_error(status: u16) -> (m: Option<String>)
    ensures
        (m is Some) == (status != 200),
        m matches Some(t) ==> t@ == "current-summoner returned "@ + decimal_digits(status as nat),
{
    if status != 200 {
        let code = decimal_u64(status as u64);
        Some(joined("current-summoner returned ", code.as_str()))
    } else {
        None
    }
}

/// The message for a reply that is not valid JSON.
pub fn invalid_json_message(detail: &str) -> (m: String)
    ensures
        m@ == "Invalid JSON: "@ + detail@,
{
    joined("Invalid JSON: ", detail)
}

/// The summoner report of a decoded reply: the members of the object, or an
/// error when the reply is not an object.
pub fn summoner_debug_report(object: Option<Vec<JsonMember>>) -> (r: Result<SummonerDebugReport, String>)
    requires
        object matches Some(members) ==> members_previewable(members_seq(members@)),
    ensures
        object is None ==> (r matches Err(m) && m@ == "Response is not a JSON object"@),
        object matches Some(members) ==> (r matches Ok(report) && reports_members(report, members_seq(members@))),
{
    let members = match object {
        None => {
            return Err("Response is not a JSON object".to_owned());
        },
        Some(m) => m,
    };
    let ghost m = members_seq(members@);
    let mut keys: Vec<String> = Vec::new();
    let mut fields: Vec<FieldReport> = Vec::new();
    let mut i: usize = 0;
    while i < members.len()
        invariant
            m == members_seq(members@),
            members_previewable(m),
            i <= members@.len(),
            keys@.len() == i,
            fields@.len() == i,
            forall|j: int| 0 <= j < i ==> {
                &&& #[trigger] keys@[j]@ == m[j].0
                &&& fields@[j].key@ == m[j].0
                &&& previews(m[j].1, fields@[j].preview)
            },
        decreases members@.len() - i,
    {
        let x = &members[i];
        assert(m[i as int] == (x.key@, x.value@));
        assert(shape_previewable(m[i as int].1));
        keys.push(x.key.clone());
        fields.push(FieldReport { key: x.key.clone(), preview: preview_of(&x.value) });
        i = i + 1;
    }
    let report = SummonerDebugReport { keys, fields };
    assert(reports_members(report, m));
    Ok(report)
}

/// Whether the report of the members `m` can be made: the preview of a
/// long string cuts its text 4 bytes before its end.
pub fn members_are_previewable(members: &Vec<JsonMember>) -> (r: bool)
    ensures
        r == members_previewable(members_seq(members@)),
{
    let ghost m = members_seq(members@);
    let mut i: usize = 0;
    while i < members.len()
        invariant
            m == members_seq(members@),
            i <= members@.len(),
            forall|j: int| 0 <= j < i ==> shape_previewable(#[trigger] m[j].1),
        decreases members@.len() - i,
    {
        assert(m[i as int].1 == members@[i as int].value@);
        if let JsonShape::Text(t) = &members[i].value {
            let n = t.as_str().as_bytes().len();
            if n > 8 && !is_at_char_boundary(t.as_str(), n - 4) {
                return false;
            }
        }
        i = i + 1;
    }
    true
}

/// What the current-summoner diagnostic gives for the reply `status`, `body`:
/// an error for a status other than 200, for a body that is no JSON or no
/// object; else the report of the object's members. `None` where a string
/// member cannot be cut for its preview (there the original command panics).
pub open spec fn summoner_debug_outcome_holds(status: u16, body: Seq<char>, r: Option<Result<SummonerDebugReport, String>>) -> bool {
    if status != 200 {
        r matches Some(Err(m)) && m@ == "current-summoner returned "@ + decimal_digits(status as nat)
    } else {
        match json_object_members(body) {
            Err(e) => r matches Some(Err(m)) && m@ == "Invalid JSON: "@ + e,
            Ok(None) => r matches Some(Err(m)) && m@ == "Response is not a JSON object"@,
            Ok(Some(members)) => if members_previewable(members) {
                r matches Some(Ok(report)) && reports_members(report, members)
            } else {
                r is None
            },
        }
    }
}

/// The current-summoner diagnostic for the reply `status`, `body`.
pub fn current_summoner_debug(status: u16, body: &str) -> (r: Option<Result<SummonerDebugReport, String>>)
    ensures
        summoner_debug_outcome_holds(status, body@, r),
{
    if let Some(m) = summoner_debug_status_error(status) {
        return Some(Err(m));
    }
    let members = match decode_json_object(body) {
        Err(e) => {
            return Some(Err(invalid_json_message(e.as_str())));
        },
        Ok(None) => {
            return Some(summoner_debug_report(None));
        },
        Ok(Some(m)) => m,
    };
    if !members_are_previewable(&members) {
        return None;
    }
    Some(summoner_debug_report(Some(members)))
}

/// The swagger documents to try, in order.
pub open spec fn swagger_spec_paths() -> Seq<Seq<char>> {
    seq!["/swagger/v2/swagger.json"@, "/swagger/v3/openapi.json"@]
}

fn swagger_spec_path(i: usize) -> (p: String)
    requires
        i < 2,
    ensures
        p@ == swagger_spec_paths()[i as int],
{
    if i == 0 {
        "/swagger/v2/swagger.json".to_owned()
    } else {
        "/swagger/v3/openapi.json".to_owned()
    }
}

/// How fetching one swagger document went.
pub enum SwaggerFetchOutcome {
    /// The request failed with this error.
    Failed(String),
    /// The LCU answered with this status and a body of this many bytes.
    Fetched { status: u16, body_length: usize },
}

/// The record of fetching one swagger document.
pub struct SwaggerFetch {
    pub url: String,
    pub outcome: SwaggerFetchOutcome,
}

/// Whether `f` records fetching `url` with the reply `reply`.
pub open spec fn records_fetch(f: SwaggerFetch, url: Seq<char>, reply: LcuReply) -> bool {
    &&& f.url@ == url
    &&& match reply {
        Ok((status, body)) => f.outcome == SwaggerFetchOutcome::Fetched {
            status,
            body_length: utf8_len(body@) as usize,
        },
        Err(e) => f.outcome matches SwaggerFetchOutcome::Failed(m) && m@ == e@,
    }
}

/// Whether `c` records the same fetch as `f`.
pub open spec fn same_fetch(c: SwaggerFetch, f: SwaggerFetch) -> bool {
    &&& c.url@ == f.url@
    &&& match f.outcome {
        SwaggerFetchOutcome::Failed(e) => c.outcome matches SwaggerFetchOutcome::Failed(m) && m@ == e@,
        SwaggerFetchOutcome::Fetched { status, body_length } => c.outcome == SwaggerFetchOutcome::Fetched {
            status,
            body_length,
        },
    }
}

fn copy_fetch(f: &SwaggerFetch) -> (c: SwaggerFetch)
    ensures
        same_fetch(c, *f),
{
    let outcome = match &f.outcome {
        SwaggerFetchOutcome::Failed(e) => SwaggerFetchOutcome::Failed(e.clone()),
        SwaggerFetchOutcome::Fetched { status, body_length } => SwaggerFetchOutcome::Fetched {
            status: *status,
            body_length: *body_length,
        },
    };
    SwaggerFetch { url: f.url.clone(), outcome }
}

/// A swagger path and the names of its path parameters.
pub struct PathEntry {
    pub path: String,
    pub path_parameter_names: Vec<String>,
}

/// The swagger paths that mention mastery or collections.
pub struct SwaggerReport {
    pub spec_url: String,
    pub swagger_fetch: Vec<SwaggerFetch>,
    pub champion_mastery_paths: Vec<PathEntry>,
    pub mastery_paths: Vec<PathEntry>,
    pub collections_paths: Vec<PathEntry>,
}

/// A segment of a path that names a parameter: `{` first and `}` last.
pub open spec fn is_parameter_segment(seg: Seq<char>) -> bool {
    seg.len() > 0 && seg[0] == '{' && seg.last() == '}'
}

/// The parameter names among the segments, without their braces.
pub open spec fn parameter_names(segments: Seq<Seq<char>>) -> Seq<Seq<char>>
    decreases segments.len(),
{
    if segments.len() == 0 {
        seq![]
    } else if is_parameter_segment(segments.last()) {
        parameter_names(segments.drop_last()).push(strip_braces(segments.last()))
    } else {
        parameter_names(segments.drop_last())
    }
}

/// The names of the path parameters of a swagger path, in order.
pub open spec fn path_parameters(path: Seq<char>) -> Seq<Seq<char>> {
    parameter_names(split_on(path, '/'))
}

/// Which list of the report a path goes to.
#[derive(Debug, Clone, Copy, PartialEq, Eq, Structural)]
pub enum PathTopic {
    ChampionMastery,
    Mastery,
    Collections,
}

/// Whether a lower-cased path mentions the topic.
pub open spec fn mentions_in_lowercase(topic: PathTopic, lower: Seq<char>) -> bool {
    match topic {
        PathTopic::ChampionMastery => contains_text(lower, "champion-mastery"@) || contains_text(
            lower,
            "championmastery"@,
        ),
        PathTopic::Mastery => contains_text(lower, "mastery"@),
        PathTopic::Collections => contains_text(lower, "collections"@),
    }
}

/// Whether the lower-cased path mentions the topic.
pub open spec fn mentions(topic: PathTopic, path: Seq<char>) -> bool {
    mentions_in_lowercase(topic, unicode_lowercase(path))
}

/// Which topics a lower-cased path mentions: champion mastery, mastery,
/// collections.
pub fn path_topics(lower: &str) -> (r: (bool, bool, bool))
    ensures
        r.0 == mentions_in_lowercase(PathTopic::ChampionMastery, lower@),
        r.1 == mentions_in_lowercase(PathTopic::Mastery, lower@),
        r.2 == mentions_in_lowercase(PathTopic::Collections, lower@),
{
    let lower_chars = chars_of(lower);
    let champion_mastery = contains_chars(&lower_chars, &chars_of("champion-mastery"))
        || contains_chars(&lower_chars, &chars_of("championmastery"));
    let mastery = contains_chars(&lower_chars, &chars_of("mastery"));
    let collections = contains_chars(&lower_chars, &chars_of("collections"));
    (champion_mastery, mastery, collections)
}

/// The entries of the paths that mention the topic, in order: each path with
/// its parameter names.
pub open spec fn topic_entries(paths: Seq<Seq<char>>, topic: PathTopic) -> Seq<(Seq<char>, Seq<Seq<char>>)>
    decreases paths.len(),
{
    if paths.len() == 0 {
        seq![]
    } else if mentions(topic, paths.last()) {
        topic_entries(paths.drop_last(), topic).push((paths.last(), path_parameters(paths.last())))
    } else {
        topic_entries(paths.drop_last(), topic)
    }
}

proof fn lemma_map_push<A, B>(s: Seq<A>, x: A, f: spec_fn(A) -> B)
    ensures
        s.push(x).map_values(f) == s.map_values(f).push(f(x)),
{
    assert(s.push(x).map_values(f) =~= s.map_values(f).push(f(x)));
}

/// Law: the parameter names of a path are its `/`-separated segments that
/// start with `{` and end with `}`, every one of them in order, without
/// their braces; the path is read as written (its case is kept).
pub proof fn law_path_parameters_are_the_braced_segments(path: Seq<char>)
    ensures
        path_parameters(path) == split_on(path, '/').filter(
            |seg: Seq<char>| seg.len() > 0 && seg[0] == '{' && seg.last() == '}',
        ).map_values(|seg: Seq<char>| strip_braces(seg)),
{
    lemma_parameter_names_filter(split_on(path, '/'));
}

proof fn lemma_parameter_names_filter(segs: Seq<Seq<char>>)
    ensures
        parameter_names(segs) == segs.filter(
            |seg: Seq<char>| seg.len() > 0 && seg[0] == '{' && seg.last() == '}',
        ).map_values(|seg: Seq<char>| strip_braces(seg)),
    decreases segs.len(),
{
    let p = |seg: Seq<char>| seg.len() > 0 && seg[0] == '{' && seg.last() == '}';
    let f = |seg: Seq<char>| strip_braces(seg);
    reveal(Seq::filter);
    if segs.len() > 0 {
        lemma_parameter_names_filter(segs.drop_last());
        assert(segs.drop_last().push(segs.last()) =~= segs);
        segs.drop_last().lemma_filter_push(segs.last(), p);
        lemma_map_push(segs.drop_last().filter(p), segs.last(), f);
    } else {
        assert(segs.filter(p) =~= Seq::<Seq<char>>::empty());
        assert(segs.filter(p).map_values(f) =~= Seq::<Seq<char>>::empty());
    }
}

/// Law: the entries of a topic are the paths that mention it, every one of
/// them in order, each with the parameter names of that same path as written.
pub proof fn law_topic_entries_are_the_mentioning_paths(paths: Seq<Seq<char>>, topic: PathTopic)
    ensures
        topic_entries(paths, topic) == paths.filter(|p: Seq<char>| mentions(topic, p)).map_values(
            |p: Seq<char>| (p, path_parameters(p)),
        ),
        forall|i: int| 0 <= i < topic_entries(paths, topic).len() ==> (#[trigger] topic_entries(paths, topic)[i]).1
            == path_parameters(topic_entries(paths, topic)[i].0),
    decreases paths.len(),
{
    let pr = |p: Seq<char>| mentions(topic, p);
    let f = |p: Seq<char>| (p, path_parameters(p));
    reveal(Seq::filter);
    if paths.len() > 0 {
        law_topic_entries_are_the_mentioning_paths(paths.drop_last(), topic);
        assert(paths.drop_last().push(paths.last()) =~= paths);
        paths.drop_last().lemma_filter_push(paths.last(), pr);
        lemma_map_push(paths.drop_last().filter(pr), paths.last(), f);
    } else {
        assert(paths.filter(pr) =~= Seq::<Seq<char>>::empty());
        assert(paths.filter(pr).map_values(f) =~= Seq::<(Seq<char>, Seq<Seq<char>>)>::empty());
    }
}

/// The view of a list of path entries.
pub open spec fn entries_view(v: Seq<PathEntry>) -> Seq<(Seq<char>, Seq<Seq<char>>)> {
    v.map_values(|e: PathEntry| (e.path@, texts(e.path_parameter_names@)))
}

/// The parameter names of a swagger path.
pub fn path_parameter_names(path: &str) -> (names: Vec<String>)
    ensures
        texts(names@) == path_parameters(path@),
        texts(names@) == split_on(path@, '/').filter(
            |seg: Seq<char>| seg.len() > 0 && seg[0] == '{' && seg.last() == '}',
        ).map_values(|seg: Seq<char>| strip_braces(seg)),
{
    proof {
        law_path_parameters_are_the_braced_segments(path@);
    }
    let cs = chars_of(path);
    let segments = split_chars(&cs, '/');
    let ghost segs = split_on(path@, '/');
    let mut names: Vec<String> = Vec::new();
    let mut i: usize = 0;
    while i < segments.len()
        invariant
            segments@.len() == segs.len(),
            forall|k: int| 0 <= k < segments@.len() ==> #[trigger] segments@[k]@ == segs[k],
            i <= segs.len(),
            texts(names@) == parameter_names(segs.take(i as int)),
        decreases segs.len() - i,
    {
        let seg = &segments[i];
        assert(segs.take(i + 1).drop_last() =~= segs.take(i as int));
        assert(segs.take(i + 1).last() == seg@);
        if seg.len() > 0 && seg[0] == '{' && seg[seg.len() - 1] == '}' {
            let stripped = strip_braces_exec(seg);
            let ghost before = names@;
            names.push(string_of(stripped.as_slice()));
            assert(texts(names@) =~= texts(before).push(stripped@));
        }
        i = i + 1;
    }
    assert(segs.take(segs.len() as int) =~= segs);
    names
}

fn copy_texts(v: &Vec<String>) -> (c: Vec<String>)
    ensures
        texts(c@) == texts(v@),
{
    let mut c: Vec<String> = Vec::new();
    let mut i: usize = 0;
    while i < v.len()
        invariant
            i <= v@.len(),
            texts(c@) == texts(v@.take(i as int)),
        decreases v@.len() - i,
    {
        let ghost before = c@;
        c.push(v[i].clone());
        assert(texts(c@) =~= texts(before).push(v@[i as int]@));
        assert(texts(v@.take(i + 1)) =~= texts(v@.take(i as int)).push(v@[i as int]@));
        i = i + 1;
    }
    assert(v@.take(v@.len() as int) =~= v@);
    c
}

/// The entries of the swagger paths that mention each topic.
pub fn topic_path_entries(paths: &Vec<String>) -> (r: (Vec<PathEntry>, Vec<PathEntry>, Vec<PathEntry>))
    ensures
        entries_view(r.0@) == topic_entries(texts(paths@), PathTopic::ChampionMastery),
        entries_view(r.1@) == topic_entries(texts(paths@), PathTopic::Mastery),
        entries_view(r.2@) == topic_entries(texts(paths@), PathTopic::Collections),
        forall|i: int| 0 <= i < r.0@.len() ==> texts((#[trigger] r.0@[i]).path_parameter_names@) == path_parameters(r.0@[i].path@),
        forall|i: int| 0 <= i < r.1@.len() ==> texts((#[trigger] r.1@[i]).path_parameter_names@) == path_parameters(r.1@[i].path@),
        forall|i: int| 0 <= i < r.2@.len() ==> texts((#[trigger] r.2@[i]).path_parameter_names@) == path_parameters(r.2@[i].path@),
{
    let mut champion_mastery: Vec<PathEntry> = Vec::new();
    let mut mastery: Vec<PathEntry> = Vec::new();
    let mut collections: Vec<PathEntry> = Vec::new();
    let mut i: usize = 0;
    while i < paths.len()
        invariant
            i <= paths@.len(),
            entries_view(champion_mastery@) == topic_entries(texts(paths@.take(i as int)), PathTopic::ChampionMastery),
            entries_view(mastery@) == topic_entries(texts(paths@.take(i as int)), PathTopic::Mastery),
            entries_view(collections@) == topic_entries(texts(paths@.take(i as int)), PathTopic::Collections),
        decreases paths@.len() - i,
    {
        let key = paths[i].as_str();
        let lower = lowercase(key);
        let (on_champion_mastery, on_mastery, on_collections) = path_topics(lower.as_str());
        let names = path_parameter_names(key);
        proof {
            assert(texts(paths@.take(i + 1)).drop_last() =~= texts(paths@.take(i as int)));
            assert(texts(paths@.take(i + 1)).last() == key@);
        }
        if on_champion_mastery {
            let ghost before = champion_mastery@;
            champion_mastery.push(PathEntry { path: key.to_owned(), path_parameter_names: copy_texts(&names) });
            assert(entries_view(champion_mastery@) =~= entries_view(before).push((key@, texts(names@))));
        }
        if on_mastery {
            let ghost before = mastery@;
            mastery.push(PathEntry { path: key.to_owned(), path_parameter_names: copy_texts(&names) });
            assert(entries_view(mastery@) =~= entries_view(before).push((key@, texts(names@))));
        }
        if on_collections {
            let ghost before = collections@;
            collections.push(PathEntry { path: key.to_owned(), path_parameter_names: copy_texts(&names) });
            assert(entries_view(collections@) =~= entries_view(before).push((key@, texts(names@))));
        }
        i = i + 1;
    }
    assert(paths@.take(paths@.len() as int) =~= paths@);
    proof {
        let keys = texts(paths@);
        law_topic_entries_are_the_mentioning_paths(keys, PathTopic::ChampionMastery);
        law_topic_entries_are_the_mentioning_paths(keys, PathTopic::Mastery);
        law_topic_entries_are_the_mentioning_paths(keys, PathTopic::Collections);
        assert forall|i: int| 0 <= i < champion_mastery@.len() implies texts((#[trigger] champion_mastery@[i]).path_parameter_names@)
            == path_parameters(champion_mastery@[i].path@) by {
            assert(entries_view(champion_mastery@)[i] == (champion_mastery@[i].path@, texts(champion_mastery@[i].path_parameter_names@)));
        }
        assert forall|i: int| 0 <= i < mastery@.len() implies texts((#[trigger] mastery@[i]).path_parameter_names@)
            == path_parameters(mastery@[i].path@) by {
            assert(entries_view(mastery@)[i] == (mastery@[i].path@, texts(mastery@[i].path_parameter_names@)));
        }
        assert forall|i: int| 0 <= i < collections@.len() implies texts((#[trigger] collections@[i]).path_parameter_names@)
            == path_parameters(collections@[i].path@) by {
            assert(entries_view(collections@)[i] == (collections@[i].path@, texts(collections@[i].path_parameter_names@)));
        }
    }
    (champion_mastery, mastery, collections)
}

/// Whether `report` describes the document fetched last among `recorded`,
/// whose `paths` object has the keys `keys`.
pub open spec fn reports_swagger(report: SwaggerReport, recorded: Seq<SwaggerFetch>, keys: Seq<Seq<char>>) -> bool {
    &&& report.spec_url@ == swagger_spec_paths()[recorded.len() - 1]
    &&& report.swagger_fetch@.len() == recorded.len()
    &&& forall|i: int| 0 <= i < recorded.len() ==> same_fetch(#[trigger] report.swagger_fetch@[i], recorded[i])
    &&& entries_view(report.champion_mastery_paths@) == topic_entries(keys, PathTopic::ChampionMastery)
    &&& entries_view(report.mastery_paths@) == topic_entries(keys, PathTopic::Mastery)
    &&& entries_view(report.collections_paths@) == topic_entries(keys, PathTopic::Collections)
}

/// What `serde_json::from_str::<serde_json::Value>` makes of `body`, read
/// for its `paths` member: the error's text, `None` when `paths` is missing or
/// no object, else the keys of that object in the order of its map.
pub uninterp spec fn swagger_path_keys(body: Seq<char>) -> Result<Option<Seq<Seq<char>>>, Seq<char>>;

/// The view of decoded swagger path keys.
pub open spec fn keys_view(r: Result<Option<Vec<String>>, String>) -> Result<Option<Seq<Seq<char>>>, Seq<char>> {
    match r {
        Err(e) => Err(e@),
        Ok(None) => Ok(None),
        Ok(Some(k)) => Ok(Some(texts(k@))),
    }
}

/// Decodes `body` with `serde_json::from_str::<serde_json::Value>` and lists
/// the keys of its `paths` object (`Value::get`, `Value::as_object`,
/// `Map::keys`). Trusted: the result is named `swagger_path_keys` of the body.
#[verifier::external_body]
pub(crate) fn decode_swagger_path_keys(body: &str) -> (r: Result<Option<Vec<String>>, String>)
    ensures
        keys_view(r) == swagger_path_keys(body@),
{
    let spec: Value = serde_json::from_str(body).map_err(|e| e.to_string())?;
    Ok(spec.get("paths").and_then(|p| p.as_object()).map(|m| m.keys().cloned().collect()))
}

/// The search for a swagger document: the documents in order, and the record
/// of each fetch so far.
pub struct SwaggerSearch {
    fetches: Vec<SwaggerFetch>,
}

impl SwaggerSearch {
    /// The fetches recorded so far, one per document tried.
    pub closed spec fn recorded(&self) -> Seq<SwaggerFetch> {
        self.fetches@
    }

    /// Starts the search.
    pub fn new() -> (s: SwaggerSearch)
        ensures
            s.recorded().len() == 0,
    {
        SwaggerSearch { fetches: Vec::new() }
    }

    /// The document to fetch next, while any is left.
    pub fn next_url(&self) -> (u: Option<String>)
        ensures
            self.recorded().len() < 2 ==> (u matches Some(p) && p@ == swagger_spec_paths()[self.recorded().len() as int]),
            self.recorded().len() >= 2 ==> u is None,
    {
        if self.fetches.len() < 2 {
            Some(swagger_spec_path(self.fetches.len()))
        } else {
            None
        }
    }

    /// Records the reply for the document to fetch next, and says whether its
    /// body should be decoded: status 200 and a body that is not empty.
    pub fn on_reply(&mut self, reply: &LcuReply) -> (decode: bool)
        requires
            old(self).recorded().len() < 2,
        ensures
            final(self).recorded().len() == old(self).recorded().len() + 1,
            final(self).recorded().drop_last() == old(self).recorded(),
            records_fetch(final(self).recorded().last(), swagger_spec_paths()[old(self).recorded().len() as int], *reply),
            decode == (reply matches Ok((status, body)) && status == 200 && body@.len() > 0),
    {
        let url = swagger_spec_path(self.fetches.len());
        let (outcome, decode) = match reply {
            Ok((status, body)) => {
                let body_length = body.as_str().as_bytes().len();
                (SwaggerFetchOutcome::Fetched { status: *status, body_length }, *status == 200 && body.as_str().as_bytes().len() > 0)
            },
            Err(e) => (SwaggerFetchOutcome::Failed(e.clone()), false),
        };
        proof {
            if let Ok((_, body)) = reply {
                assert(body@.len() > 0 <==> utf8_len(body@) > 0) by {
                    if body@.len() > 0 {
                        crate::text::lemma_utf8_len_step(body@, 0);
                        crate::text::lemma_utf8_len_increasing(body@, 1, body@.len() as int);
                        crate::text::lemma_utf8_len_whole(body@);
                    } else {
                        assert(body@ =~= Seq::<char>::empty());
                    }
                }
            }
        }
        let ghost before = self.fetches@;
        self.fetches.push(SwaggerFetch { url, outcome });
        assert(self.fetches@.drop_last() =~= before);
        decode
    }

    /// The fetches recorded so far.
    pub fn fetches(&self) -> (f: &Vec<SwaggerFetch>)
        ensures
            f@ == self.recorded(),
    {
        &self.fetches
    }

    /// The report for the document fetched last, given the keys of its
    /// `paths` object; without such an object there is no report.
    pub fn report(&self, path_keys: Option<Vec<String>>) -> (r: Option<SwaggerReport>)
        requires
            1 <= self.recorded().len() <= 2,
        ensures
            path_keys is None ==> r is None,
            path_keys matches Some(keys) ==> (r matches Some(report) && reports_swagger(
                report,
                self.recorded(),
                texts(keys@),
            )),
    {
        let keys = match path_keys {
            None => {
                return None;
            },
            Some(k) => k,
        };
        let spec_url = swagger_spec_path(self.fetches.len() - 1);
        let mut swagger_fetch: Vec<SwaggerFetch> = Vec::new();
        let mut i: usize = 0;
        while i < self.fetches.len()
            invariant
                i <= self.fetches@.len(),
                swagger_fetch@.len() == i,
                forall|j: int| 0 <= j < i ==> same_fetch(#[trigger] swagger_fetch@[j], self.fetches@[j]),
            decreases self.fetches@.len() - i,
        {
            let ghost before = swagger_fetch@;
            let copy = copy_fetch(&self.fetches[i]);
            swagger_fetch.push(copy);
            assert(forall|j: int| 0 <= j < i ==> swagger_fetch@[j] == before[j]);
            assert(swagger_fetch@[i as int] == copy);
            i = i + 1;
        }
        let (champion_mastery_paths, mastery_paths, collections_paths) = topic_path_entries(&keys);
        Some(SwaggerReport { spec_url, swagger_fetch, champion_mastery_paths, mastery_paths, collections_paths })
    }

    /// The report for the document fetched last, given its body: an error
    /// when the body is no JSON, no report when it has no `paths` object.
    pub fn report_from_body(&self, body: &str) -> (r: Result<Option<SwaggerReport>, String>)
        requires
            1 <= self.recorded().len() <= 2,
        ensures
            match swagger_path_keys(body@) {
                Err(e) => r matches Err(m) && m@ == "Invalid swagger JSON: "@ + e,
                Ok(None) => r matches Ok(None),
                Ok(Some(keys)) => r matches Ok(Some(report)) && reports_swagger(report, self.recorded(), keys),
            },
    {
        match decode_swagger_path_keys(body) {
            Err(e) => Err(invalid_swagger_message(e.as_str())),
            Ok(keys) => Ok(self.report(keys)),
        }
    }
}

/// The message for a swagger document that is not valid JSON.
pub fn invalid_swagger_message(detail: &str) -> (m: String)
    ensures
        m@ == "Invalid swagger JSON: "@ + detail@,
{
    joined("Invalid swagger JSON: ", detail)
}

/// The message when no swagger document gave a report, with the fetch
/// records written as JSON.
pub fn swagger_failure_message(details_json: &str) -> (m: String)
    ensures
        m@ == "Could not load swagger (tried v2 and v3). Details: "@ + details_json@,
{
    joined("Could not load swagger (tried v2 and v3). Details: ", details_json)
}


/// The other inventory endpoints that the mastery trace probes.
pub open spec fn probe_paths_text(summoner_id: i64) -> Seq<Seq<char>> {
    seq![
        "/lol-collections/v1/inventories/chest-eligibility"@,
        "/lol-collections/v1/inventories/"@ + decimal_text(summoner_id as int) + "/runes"@,
        "/lol-collections/v1/inventories/"@ + decimal_text(summoner_id as int) + "/backdrop"@,
    ]
}

/// The other inventory endpoints that the mastery trace probes.
pub fn mastery_probe_paths(summoner_id: i64) -> (paths: Vec<String>)
    ensures
        texts(paths@) == probe_paths_text(summoner_id),
{
    let id = decimal_i64(summoner_id);
    let mut runes = "/lol-collections/v1/inventories/".to_owned();
    runes.append(id.as_str());
    runes.append("/runes");
    let mut backdrop = "/lol-collections/v1/inventories/".to_owned();
    backdrop.append(id.as_str());
    backdrop.append("/backdrop");
    let mut paths: Vec<String> = Vec::new();
    paths.push("/lol-collections/v1/inventories/chest-eligibility".to_owned());
    paths.push(runes);
    paths.push(backdrop);
    assert(texts(paths@) =~= probe_paths_text(summoner_id));
    paths
}

/// The status of a reply, 0 when the request failed.
pub open spec fn reply_status(r: LcuReply) -> u16 {
    match r {
        Ok((status, _)) => status,
        Err(_) => 0,
    }
}

/// A preview of a reply: the head of its body, or the error text.
pub open spec fn reply_preview_text(r: LcuReply, limit: nat) -> Seq<char> {
    match r {
        Ok((_, body)) => head_preview_text(body@, limit),
        Err(e) => e@,
    }
}

/// Whether a reply's body can be cut for its preview.
pub open spec fn reply_previewable(r: LcuReply, limit: nat) -> bool {
    match r {
        Ok((_, body)) => head_preview_cuttable(body@, limit),
        Err(_) => true,
    }
}

fn preview_reply(reply: &LcuReply, limit: usize) -> (r: (u16, String))
    requires
        reply_previewable(*reply, limit as nat),
    ensures
        r.0 == reply_status(*reply),
        r.1@ == reply_preview_text(*reply, limit as nat),
{
    match reply {
        Ok((status, body)) => (*status, head_preview(body.as_str(), limit)),
        Err(e) => (0, e.clone()),
    }
}

/// A probed endpoint: its path, the status and a preview of the body.
pub struct RequestPreview {
    pub path: String,
    pub status: u16,
    pub body_preview: String,
}

/// One tried mastery path: the path, its URL, the id in it, the status and
/// a preview of the body.
pub struct MasteryAttempt {
    pub path: String,
    pub url: String,
    pub id_used: String,
    pub status: u16,
    pub body_preview: String,
}

/// A trace of the mastery lookup.
pub struct MasteryDebugReport {
    pub summoner_id: i64,
    pub puuid: Option<String>,
    pub ids_tried: Vec<String>,
    pub port: u16,
    pub probes: Vec<RequestPreview>,
    pub attempts: Vec<MasteryAttempt>,
}

/// The rows of the trace for one id: each of its paths with the id.
pub open spec fn id_rows(id: Seq<char>) -> Seq<(Seq<char>, Seq<char>)> {
    paths_for_id(id).map_values(|p: Seq<char>| (p, id))
}

/// The rows of the trace, in the order the paths are tried.
pub open spec fn attempt_rows(ids: Seq<Seq<char>>) -> Seq<(Seq<char>, Seq<char>)>
    decreases ids.len(),
{
    if ids.len() == 0 {
        seq![]
    } else {
        attempt_rows(ids.drop_last()) + id_rows(ids.last())
    }
}

/// Each id gives one row per path template.
pub proof fn lemma_attempt_rows_len(ids: Seq<Seq<char>>)
    ensures
        attempt_rows(ids).len() == 4 * ids.len(),
    decreases ids.len(),
{
    if ids.len() > 0 {
        lemma_attempt_rows_len(ids.drop_last());
    }
}

/// Whether `p` previews the reply to probing `path`.
pub open spec fn previews_probe(p: RequestPreview, path: Seq<char>, reply: LcuReply) -> bool {
    &&& p.path@ == path
    &&& p.status == reply_status(reply)
    &&& p.body_preview@ == reply_preview_text(reply, 150)
}

/// Whether `t` traces trying the path of `row` for the client on `port` with
/// the reply `reply`.
pub open spec fn traces_attempt(t: MasteryAttempt, row: (Seq<char>, Seq<char>), port: u16, reply: LcuReply) -> bool {
    &&& t.path@ == row.0
    &&& t.id_used@ == row.1
    &&& t.url@ == lcu_url_text(port, row.0)
    &&& t.status == reply_status(reply)
    &&& t.body_preview@ == reply_preview_text(reply, 300)
}

fn probe_previews(summoner_id: i64, probe_replies: &Vec<LcuReply>) -> (probes: Vec<RequestPreview>)
    requires
        probe_replies@.len() == 3,
        forall|k: int| 0 <= k < probe_replies@.len() ==> reply_previewable(#[trigger] probe_replies@[k], 150),
    ensures
        probes@.len() == 3,
        forall|k: int| 0 <= k < 3 ==> previews_probe(#[trigger] probes@[k], probe_paths_text(summoner_id)[k], probe_replies@[k]),
{
    let probe_paths = mastery_probe_paths(summoner_id);
    let mut probes: Vec<RequestPreview> = Vec::new();
    assert(texts(probe_paths@).len() == probe_paths@.len());
    let mut p: usize = 0;
    while p < 3
        invariant
            probe_replies@.len() == 3,
            probe_paths@.len() == 3,
            texts(probe_paths@) == probe_paths_text(summoner_id),
            forall|k: int| 0 <= k < probe_replies@.len() ==> reply_previewable(#[trigger] probe_replies@[k], 150),
            p <= 3,
            probes@.len() == p,
            forall|k: int| 0 <= k < p ==> previews_probe(#[trigger] probes@[k], probe_paths_text(summoner_id)[k], probe_replies@[k]),
        decreases 3 - p,
    {
        let (status, body_preview) = preview_reply(&probe_replies[p], 150);
        assert(texts(probe_paths@)[p as int] == probe_paths@[p as int]@);
        let ghost before = probes@;
        let probe = RequestPreview { path: probe_paths[p].clone(), status, body_preview };
        probes.push(probe);
        assert(forall|j: int| 0 <= j < before.len() ==> probes@[j] == before[j]);
        assert(probes@[p as int] == probe);
        p = p + 1;
    }
    probes
}

fn attempt_previews(creds: &LcuCredentials, ids: &Vec<String>, attempt_replies: &Vec<LcuReply>) -> (attempts: Vec<MasteryAttempt>)
    requires
        attempt_replies@.len() == attempt_rows(texts(ids@)).len(),
        forall|k: int| 0 <= k < attempt_replies@.len() ==> reply_previewable(#[trigger] attempt_replies@[k], 300),
    ensures
        attempts@.len() == attempt_replies@.len(),
        forall|k: int| 0 <= k < attempts@.len() ==> traces_attempt(
            #[trigger] attempts@[k],
            attempt_rows(texts(ids@))[k],
            creds.port,
            attempt_replies@[k],
        ),
{
    let ghost all_ids = texts(ids@);
    let templates_hole = chars_of("{}");
    assert(templates_hole@.len() == 2) by {
        reveal_strlit("{}");
    }
    let mut attempts: Vec<MasteryAttempt> = Vec::new();
    proof {
        lemma_attempt_rows_len(all_ids);
        assert(texts(ids@).len() == ids@.len());
        assert(all_ids.take(0) =~= Seq::<Seq<char>>::empty());
    }
    let mut a: usize = 0;
    while a < ids.len()
        invariant
            texts(ids@) == all_ids,
            templates_hole@ == "{}"@,
            templates_hole@.len() == 2,
            attempt_replies@.len() == attempt_rows(all_ids).len(),
            attempt_rows(all_ids).len() == 4 * all_ids.len(),
            forall|k: int| 0 <= k < attempt_replies@.len() ==> reply_previewable(#[trigger] attempt_replies@[k], 300),
            a <= ids@.len(),
            ids@.len() == all_ids.len(),
            attempts@.len() == 4 * a,
            attempt_rows(all_ids.take(a as int)).len() == 4 * a,
            forall|k: int| 0 <= k < attempts@.len() ==> traces_attempt(
                #[trigger] attempts@[k],
                attempt_rows(all_ids.take(a as int))[k],
                creds.port,
                attempt_replies@[k],
            ),
        decreases ids@.len() - a,
    {
        assert(texts(ids@)[a as int] == ids@[a as int]@);
        let id = chars_of(ids[a].as_str());
        let ghost prefix = attempt_rows(all_ids.take(a as int));
        let ghost rows = id_rows(all_ids[a as int]);
        assert(all_ids.take(a + 1).drop_last() =~= all_ids.take(a as int));
        assert(all_ids.take(a + 1).last() == all_ids[a as int]);
        assert(attempt_rows(all_ids.take(a + 1)) == prefix + rows);
        let mut b: usize = 0;
        while b < 4
            invariant
                texts(ids@) == all_ids,
                templates_hole@ == "{}"@,
                templates_hole@.len() == 2,
                id@ == all_ids[a as int],
                a < ids@.len(),
                ids@.len() == all_ids.len(),
                attempt_replies@.len() == attempt_replies.len(),
                attempt_replies@.len() == 4 * all_ids.len(),
                forall|k: int| 0 <= k < attempt_replies@.len() ==> reply_previewable(#[trigger] attempt_replies@[k], 300),
                prefix.len() == 4 * a,
                rows == id_rows(all_ids[a as int]),
                b <= 4,
                attempts@.len() == 4 * a + b,
                forall|k: int| 0 <= k < attempts@.len() ==> traces_attempt(
                    #[trigger] attempts@[k],
                    (prefix + rows)[k],
                    creds.port,
                    attempt_replies@[k],
                ),
            decreases 4 - b,
        {
            let template = mastery_template(b);
            let t = chars_of(template.as_str());
            let path_chars = replace_chars(&t, &templates_hole, &id);
            let path = string_of(path_chars.as_slice());
            let url = lcu_url(creds, path.as_str());
            assert(4 * a + b < 4 * all_ids.len());
            let k = 4 * a + b;
            let (status, body_preview) = preview_reply(&attempt_replies[k], 300);
            proof {
                assert((prefix + rows)[k as int] == rows[b as int]);
                assert(rows[b as int] == (paths_for_id(all_ids[a as int])[b as int], all_ids[a as int]));
                assert(paths_for_id(all_ids[a as int])[b as int] == replace_all(mastery_templates()[b as int], "{}"@, all_ids[a as int]));
                assert(path@ == paths_for_id(all_ids[a as int])[b as int]);
                assert(texts(ids@)[a as int] == ids@[a as int]@);
            }
            let used = ids[a].clone();
            let ghost before = attempts@;
            let attempt = MasteryAttempt { path, url, id_used: used, status, body_preview };
            attempts.push(attempt);
            proof {
                assert(forall|j: int| 0 <= j < before.len() ==> attempts@[j] == before[j]);
                assert(attempts@[k as int] == attempt);
                assert(traces_attempt(attempt, (prefix + rows)[k as int], creds.port, attempt_replies@[k as int]));
            }
            b = b + 1;
        }
        a = a + 1;
    }
    assert(all_ids.take(all_ids.len() as int) =~= all_ids);
    attempts
}

/// Law: the trace has four rows per id, in id order; row `4a + b` tries the
/// `b`-th template with `{}` replaced by the `a`-th id, and names that id.
pub proof fn law_attempt_rows_per_id(ids: Seq<Seq<char>>)
    ensures
        attempt_rows(ids).len() == 4 * ids.len(),
        forall|a: int, b: int| 0 <= a < ids.len() && 0 <= b < 4 ==> #[trigger] attempt_rows(ids)[4 * a + b]
            == (replace_all(mastery_templates()[b], "{}"@, ids[a]), ids[a]),
    decreases ids.len(),
{
    lemma_attempt_rows_len(ids);
    if ids.len() > 0 {
        let prev = ids.drop_last();
        law_attempt_rows_per_id(prev);
        let n = prev.len();
        assert forall|a: int, b: int| 0 <= a < ids.len() && 0 <= b < 4 implies #[trigger] attempt_rows(ids)[4 * a + b]
            == (replace_all(mastery_templates()[b], "{}"@, ids[a]), ids[a]) by {
            if a < n {
                assert(attempt_rows(ids)[4 * a + b] == attempt_rows(prev)[4 * a + b]);
                assert(prev[a] == ids[a]);
            } else {
                assert(attempt_rows(ids)[4 * a + b] == id_rows(ids.last())[b]);
            }
        }
    }
}

/// Builds the trace of the mastery lookup from the replies of the probed
/// endpoints and of the mastery paths, both in the order they were requested.
pub fn mastery_debug_report(
    creds: &LcuCredentials,
    summoner: CurrentSummoner,
    probe_replies: &Vec<LcuReply>,
    attempt_replies: &Vec<LcuReply>,
) -> (report: MasteryDebugReport)
    requires
        probe_replies@.len() == 3,
        attempt_replies@.len() == attempt_rows(mastery_ids(summoner.summoner_id, puuid_text(summoner))).len(),
        forall|k: int| 0 <= k < probe_replies@.len() ==> reply_previewable(#[trigger] probe_replies@[k], 150),
        forall|k: int| 0 <= k < attempt_replies@.len() ==> reply_previewable(#[trigger] attempt_replies@[k], 300),
    ensures
        report.summoner_id == summoner.summoner_id,
        report.puuid == summoner.puuid,
        texts(report.ids_tried@) == mastery_ids(summoner.summoner_id, puuid_text(summoner)),
        report.port == creds.port,
        report.probes@.len() == 3,
        forall|k: int| 0 <= k < 3 ==> previews_probe(
            #[trigger] report.probes@[k],
            probe_paths_text(summoner.summoner_id)[k],
            probe_replies@[k],
        ),
        report.attempts@.len() == attempt_replies@.len(),
        forall|k: int| 0 <= k < report.attempts@.len() ==> traces_attempt(
            #[trigger] report.attempts@[k],
            attempt_rows(mastery_ids(summoner.summoner_id, puuid_text(summoner)))[k],
            creds.port,
            attempt_replies@[k],
        ),
{
    let probes = probe_previews(summoner.summoner_id, probe_replies);
    let ids = mastery_candidate_ids(&summoner);
    let attempts = attempt_previews(creds, &ids, attempt_replies);
    MasteryDebugReport {
        summoner_id: summoner.summoner_id,
        puuid: summoner.puuid,
        ids_tried: ids,
        port: creds.port,
        probes,
        attempts,
    }
}

fn mastery_template(b: usize) -> (t: String)
    requires
        b < 4,
    ensures
        t@ == mastery_templates()[b as int],
{
    if b == 0 {
        "/lol-collections/v1/inventories/{}/champion-mastery".to_owned()
    } else if b == 1 {
        "/lol-collections/v1/inventories/{}/champion-mastery/top".to_owned()
    } else if b == 2 {
        "/lol-champions/v1/inventories/{}/champion-mastery".to_owned()
    } else {
        "/lol-champions/v1/inventories/{}/champion-mastery/top".to_owned()
    }
}

} // verus!

//! The decisions behind the widget's commands: what the front end is sent,
//! which template comes next, how a saved configuration is checked, and
//! where the widget window goes.
use vstd::prelude::*;
use vstd::relations::{sorted_by, total_ordering};

use crate::config::{
    config_complete, default_config, normalized_config, without_verbatim_prefix, Config,
    ConfigView, strip_verbatim_prefix,
};
use crate::db::{desk_views, Desk, DeskView, QuestionType, Stats};
use crate::error::AppError;
use crate::json::{
    json_error_text, json_get_exec, json_text, parse_json, str_at, u64_at, value_at, JsonValue,
    JsonValueView,
};
use crate::paths::PathStyle;
use crate::text::{
    chars_of, lemma_text_le_antisymmetric, lemma_text_le_reflexive, lemma_text_le_total,
    lemma_text_le_transitive, replace_all, replace_chars, same_chars, string_from_chars, text_le,
    text_le_exec,
};

verus! {

// ---------------------------------------------------------------------------
// What the front end receives
// ---------------------------------------------------------------------------

/// The outer rectangle of the widget window, in physical pixels.
#[derive(Debug, Clone, Copy, PartialEq, Eq)]
pub struct OuterRect {
    pub x: i32,
    pub y: i32,
    pub width: u32,
    pub height: u32,
}

/// A template as the settings list shows it.
#[derive(Debug, Clone)]
pub struct TemplateInfo {
    pub id: String,
    pub name: String,
    pub width: u32,
    pub height: u32,
}

/// A [`TemplateInfo`] with its texts as character sequences.
pub struct TemplateInfoView {
    pub id: Seq<char>,
    pub name: Seq<char>,
    pub width: u32,
    pub height: u32,
}

impl View for TemplateInfo {
    type V = TemplateInfoView;

    open spec fn view(&self) -> TemplateInfoView {
        TemplateInfoView { id: self.id@, name: self.name@, width: self.width, height: self.height }
    }
}

impl TemplateInfo {
    /// A copy with the same contents.
    pub fn duplicate(&self) -> (t: TemplateInfo)
        ensures
            t@ == self@,
    {
        TemplateInfo {
            id: self.id.clone(),
            name: self.name.clone(),
            width: self.width,
            height: self.height,
        }
    }
}

/// A template's files and window size.
#[derive(Debug, Clone)]
pub struct TemplatePayload {
    pub id: String,
    pub name: String,
    pub html: String,
    pub css: String,
    pub js: String,
    pub width: u32,
    pub height: u32,
}

/// A [`TemplatePayload`] with its texts as character sequences.
pub struct TemplatePayloadView {
    pub id: Seq<char>,
    pub name: Seq<char>,
    pub html: Seq<char>,
    pub css: Seq<char>,
    pub js: Seq<char>,
    pub width: u32,
    pub height: u32,
}

impl View for TemplatePayload {
    type V = TemplatePayloadView;

    open spec fn view(&self) -> TemplatePayloadView {
        TemplatePayloadView {
            id: self.id@,
            name: self.name@,
            html: self.html@,
            css: self.css@,
            js: self.js@,
            width: self.width,
            height: self.height,
        }
    }
}

/// Everything the widget and settings windows need to draw themselves.
#[derive(Debug)]
pub struct Bootstrap {
    pub configured: bool,
    pub config: Config,
    pub question_types: Vec<QuestionType>,
    pub desks: Vec<Desk>,
    pub stats: Stats,
    pub online: bool,
    pub last_error: Option<String>,
    pub template: Option<TemplatePayload>,
    pub templates: Vec<TemplateInfo>,
    pub default_storage: String,
    pub pending_storage: Option<String>,
}

/// The answer to recording a tally.
#[derive(Debug, Clone, Copy)]
pub struct RecordResult {
    pub stats: Stats,
    pub online: bool,
}

/// The settings form as the front end submits it.
#[derive(Debug, Clone)]
pub struct SaveConfigInput {
    pub base_url: String,
    pub desk_id: i64,
    pub desk_name: String,
    pub org_name: String,
    pub window_title: String,
    pub storage_directory: String,
    pub update_mode: String,
    pub autostart: bool,
    pub always_on_top: bool,
    pub unfocused_opacity: u8,
    pub inactivity_enabled: bool,
    pub inactivity_minutes: u32,
    pub inactivity_message: String,
    pub active_template: String,
}

/// An available update, with the notes of the releases it brings.
#[derive(Debug, Clone)]
pub struct UpdateNotice {
    pub version: String,
    pub current_version: String,
    pub notes: String,
}

/// Form switches that are on unless the form says otherwise.
pub fn default_true() -> (b: bool)
    ensures
        b,
{
    true
}

// ---------------------------------------------------------------------------
// Templates
// ---------------------------------------------------------------------------

/// What a template's manifest gives: its name and window size, each present
/// only when the manifest gives it with the right type.
pub struct TemplateMeta {
    pub name: Option<String>,
    pub width: Option<u64>,
    pub height: Option<u64>,
}

/// The payload of template `template_id`: the described name or else the
/// identifier, and the described width and height or else 720 by 88, each
/// truncated to 32 bits.
pub fn template_payload(
    template_id: &str,
    meta: TemplateMeta,
    html: String,
    css: String,
    js: String,
) -> (p: TemplatePayload)
    ensures
        p@.id == template_id@,
        p@.name == (match meta.name {
            Some(n) => n@,
            None => template_id@,
        }),
        p@.html == html@,
        p@.css == css@,
        p@.js == js@,
        p@.width == (match meta.width {
            Some(w) => w,
            None => 720,
        }) as u32,
        p@.height == (match meta.height {
            Some(h) => h,
            None => 88,
        }) as u32,
{
    let name = match meta.name {
        Some(n) => n,
        None => template_id.to_owned(),
    };
    let width: u64 = match meta.width {
        Some(w) => w,
        None => 720,
    };
    let height: u64 = match meta.height {
        Some(h) => h,
        None => 88,
    };
    TemplatePayload {
        id: template_id.to_owned(),
        name,
        html,
        css,
        js,
        width: width as u32,
        height: height as u32,
    }
}

/// The name, window width and window height of a template.
pub open spec fn meta_fields(m: TemplateMeta) -> (Option<Seq<char>>, Option<u64>, Option<u64>) {
    (
        match m.name {
            Some(n) => Some(n@),
            None => None,
        },
        m.width,
        m.height,
    )
}

/// What a template's manifest gives: the string at `name`, and the
/// non-negative integers at `window.width` and `window.height`, each absent
/// when missing or of another type.
pub open spec fn manifest_fields(v: JsonValueView) -> (Option<Seq<char>>, Option<u64>, Option<u64>) {
    (
        str_at(v, seq!["name"@]),
        u64_at(v, seq!["window"@, "width"@]),
        u64_at(v, seq!["window"@, "height"@]),
    )
}

/// Reads a template's name and window size from its manifest; see
/// [`manifest_fields`].
pub fn template_meta(v: &JsonValue) -> (m: TemplateMeta)
    ensures
        meta_fields(m) == manifest_fields(v@),
{
    let ghost path_name = seq!["name"@];
    let ghost path_width = seq!["window"@, "width"@];
    let ghost path_height = seq!["window"@, "height"@];
    proof {
        assert(path_name.drop_first() =~= Seq::<Seq<char>>::empty());
        assert(path_width.drop_first() =~= seq!["width"@]);
        assert(path_height.drop_first() =~= seq!["height"@]);
        assert(seq!["width"@].drop_first() =~= Seq::<Seq<char>>::empty());
        assert(seq!["height"@].drop_first() =~= Seq::<Seq<char>>::empty());
        reveal_with_fuel(value_at, 3);
    }
    let name = match json_get_exec(v, "name") {
        Some(JsonValue::Str(s)) => Some(s.clone()),
        _ => None,
    };
    let (width, height) = match json_get_exec(v, "window") {
        Some(w) => {
            let width = match json_get_exec(w, "width") {
                Some(JsonValue::Unsigned(u)) => Some(*u),
                _ => None,
            };
            let height = match json_get_exec(w, "height") {
                Some(JsonValue::Unsigned(u)) => Some(*u),
                _ => None,
            };
            (width, height)
        },
        None => (None, None),
    };
    TemplateMeta { name, width, height }
}

/// The payload of a template with described name, width and height, each
/// falling back to the identifier or to 720 by 88, truncated to 32 bits.
pub open spec fn described_payload(
    template_id: Seq<char>,
    fields: (Option<Seq<char>>, Option<u64>, Option<u64>),
    html: Seq<char>,
    css: Seq<char>,
    js: Seq<char>,
) -> TemplatePayloadView {
    TemplatePayloadView {
        id: template_id,
        name: match fields.0 {
            Some(n) => n,
            None => template_id,
        },
        html,
        css,
        js,
        width: (match fields.1 {
            Some(w) => w,
            None => 720,
        }) as u32,
        height: (match fields.2 {
            Some(h) => h,
            None => 88,
        }) as u32,
    }
}

/// The payload of template `template_id` from its files: the text of its
/// manifest (`None` when it has none) and its HTML, CSS and script. A
/// manifest that is not valid JSON is refused with the parser's message.
pub fn template_from_files(
    template_id: &str,
    manifest: Option<&str>,
    html: String,
    css: String,
    js: String,
) -> (r: Result<TemplatePayload, AppError>)
    ensures
        manifest is None ==> (r matches Ok(p) && p@ == described_payload(
            template_id@,
            (None, None, None),
            html@,
            css@,
            js@,
        )),
        manifest matches Some(t) ==> match json_text(t@) {
            Some(v) => r matches Ok(p) && p@ == described_payload(
                template_id@,
                manifest_fields(v),
                html@,
                css@,
                js@,
            ),
            None => r matches Err(AppError::Message(_)),
        },
{
    let meta = match manifest {
        None => TemplateMeta { name: None, width: None, height: None },
        Some(text) => match parse_json(text) {
            Ok(v) => template_meta(&v),
            Err(e) => {
                return Err(AppError::Message(json_error_text(&e)));
            },
        },
    };
    Ok(template_payload(template_id, meta, html, css, js))
}

/// `html` with `{{deskName}}`, `{{orgName}}` and `{{windowTitle}}` replaced
/// by the configured desk name, organization name and window title, in that
/// order.
pub open spec fn substituted(html: Seq<char>, c: ConfigView) -> Seq<char> {
    replace_all(
        replace_all(replace_all(html, "{{deskName}}"@, c.desk_name), "{{orgName}}"@, c.org_name),
        "{{windowTitle}}"@,
        c.window_title,
    )
}

/// Fills the template placeholders; see [`substituted`].
pub fn substitute(html: String, config: &Config) -> (s: String)
    ensures
        s@ == substituted(html@, config@),
{
    proof {
        reveal_strlit("{{deskName}}");
        reveal_strlit("{{orgName}}");
        reveal_strlit("{{windowTitle}}");
    }
    let h = chars_of(html.as_str());
    let a = replace_chars(&h, &chars_of("{{deskName}}"), &chars_of(config.desk_name.as_str()));
    let b = replace_chars(&a, &chars_of("{{orgName}}"), &chars_of(config.org_name.as_str()));
    let c = replace_chars(&b, &chars_of("{{windowTitle}}"), &chars_of(config.window_title.as_str()));
    string_from_chars(&c)
}

/// The views of a list of template summaries.
pub open spec fn template_views(v: Seq<TemplateInfo>) -> Seq<TemplateInfoView> {
    v.map_values(|t: TemplateInfo| t@)
}

/// Names in order; among equal names, the earlier in the list first.
pub open spec fn name_then_index(a: (Seq<char>, usize), b: (Seq<char>, usize)) -> bool {
    (text_le(a.0, b.0) && a.0 != b.0) || (a.0 == b.0 && a.1 <= b.1)
}

/// [`name_then_index`] as a relation.
pub open spec fn name_then_index_rel() -> spec_fn((Seq<char>, usize), (Seq<char>, usize)) -> bool {
    |a: (Seq<char>, usize), b: (Seq<char>, usize)| name_then_index(a, b)
}

/// Each template's name with its place in the list.
pub open spec fn named_entries(t: Seq<TemplateInfoView>) -> Seq<(Seq<char>, usize)> {
    Seq::new(t.len(), |i: int| (t[i].name, i as usize))
}

/// The templates sorted by name, templates of equal name in list order, as
/// a stable sort by name leaves them.
pub open spec fn sorted_by_name(t: Seq<TemplateInfoView>) -> Seq<TemplateInfoView> {
    named_entries(t).sort_by(name_then_index_rel()).map_values(
        |e: (Seq<char>, usize)| t[e.1 as int],
    )
}

/// [`name_then_index`] is a total order.
pub proof fn lemma_name_then_index_total()
    ensures
        total_ordering(name_then_index_rel()),
{
    let leq = name_then_index_rel();
    assert forall|a: (Seq<char>, usize)| #[trigger] leq(a, a) by {
        lemma_text_le_reflexive(a.0);
    }
    assert forall|a: (Seq<char>, usize), b: (Seq<char>, usize)| #[trigger] leq(a, b) && #[trigger] leq(
        b,
        a,
    ) implies a == b by {
        if a.0 != b.0 {
            lemma_text_le_antisymmetric(a.0, b.0);
        }
    }
    assert forall|a: (Seq<char>, usize), b: (Seq<char>, usize), c: (Seq<char>, usize)| #[trigger] leq(
        a,
        b,
    ) && #[trigger] leq(b, c) implies leq(a, c) by {
        if a.0 != b.0 && b.0 != c.0 {
            lemma_text_le_transitive(a.0, b.0, c.0);
            if a.0 == c.0 {
                lemma_text_le_antisymmetric(a.0, b.0);
            }
        }
    }
    assert forall|a: (Seq<char>, usize), b: (Seq<char>, usize)| #[trigger] leq(a, b) || #[trigger] leq(
        b,
        a,
    ) by {
        lemma_text_le_total(a.0, b.0);
    }
}

/// The templates sorted by name; see [`sorted_by_name`].
pub fn sort_templates_by_name(templates: Vec<TemplateInfo>) -> (r: Vec<TemplateInfo>)
    ensures
        template_views(r@) == sorted_by_name(template_views(templates@)),
{
    let ghost tv = template_views(templates@);
    let ghost leq = name_then_index_rel();
    let mut names: Vec<Vec<char>> = Vec::new();
    let mut j: usize = 0;
    while j < templates.len()
        invariant
            j <= templates@.len(),
            tv == template_views(templates@),
            names@.len() == j,
            forall|q: int| 0 <= q < j ==> (#[trigger] names@[q])@ == tv[q].name,
        decreases templates@.len() - j,
    {
        names.push(chars_of(templates[j].name.as_str()));
        j = j + 1;
    }
    let mut order: Vec<usize> = Vec::new();
    let mut i: usize = 0;
    assert(order@.map_values(|j: usize| (tv[j as int].name, j)) =~= Seq::<(Seq<char>, usize)>::empty());
    assert(named_entries(tv.take(0)) =~= Seq::<(Seq<char>, usize)>::empty());
    while i < templates.len()
        invariant
            i <= templates@.len(),
            tv == template_views(templates@),
            names@.len() == templates@.len(),
            forall|q: int| 0 <= q < names@.len() ==> (#[trigger] names@[q])@ == tv[q].name,
            leq == name_then_index_rel(),
            forall|k: int| 0 <= k < order@.len() ==> (#[trigger] order@[k]) < i,
            sorted_by(order@.map_values(|j: usize| (tv[j as int].name, j)), leq),
            order@.map_values(|j: usize| (tv[j as int].name, j)).to_multiset() == named_entries(
                tv.take(i as int),
            ).to_multiset(),
        decreases templates@.len() - i,
    {
        let mut p: usize = 0;
        while p < order.len() && text_le_exec(&names[order[p]], &names[i])
            invariant
                p <= order@.len(),
                i < templates@.len(),
                tv == template_views(templates@),
                names@.len() == templates@.len(),
                forall|q: int| 0 <= q < names@.len() ==> (#[trigger] names@[q])@ == tv[q].name,
                forall|k: int| 0 <= k < order@.len() ==> (#[trigger] order@[k]) < i,
                forall|k: int| 0 <= k < p ==> text_le(tv[order@[k] as int].name, tv[i as int].name),
            decreases order@.len() - p,
        {
            p = p + 1;
        }
        assert(p < order@.len() ==> !text_le(tv[order@[p as int] as int].name, tv[i as int].name));
        let ghost old_order = order@;
        let ghost entry = |j: usize| (tv[j as int].name, j);
        order.insert(p, i);
        proof {
            broadcast use vstd::seq_lib::group_to_multiset_ensures;

            old_order.insert_ensures(p as int, i);
            let om = old_order.map_values(entry);
            let nm = order@.map_values(entry);
            assert(nm =~= om.insert(p as int, entry(i)));
            assert forall|a: int, b: int| 0 <= a < b < nm.len() implies #[trigger] leq(nm[a], nm[b]) by {
                if b < p {
                    assert(leq(om[a], om[b]));
                } else if a < p && b == p {
                    assert(text_le(tv[old_order[a] as int].name, tv[i as int].name));
                } else if a < p {
                    assert(leq(om[a], om[b - 1]));
                } else if a == p {
                    let ni = tv[i as int].name;
                    let np = tv[old_order[p as int] as int].name;
                    let nb = tv[old_order[b - 1] as int].name;
                    assert(nm[a] == entry(i) && nm[b] == om[b - 1]);
                    assert(!text_le(np, ni));
                    lemma_text_le_total(np, ni);
                    lemma_text_le_reflexive(ni);
                    lemma_text_le_reflexive(np);
                    if b - 1 > p {
                        assert(leq(om[p as int], om[b - 1]));
                        if np != nb {
                            lemma_text_le_transitive(ni, np, nb);
                            if ni == nb {
                                lemma_text_le_antisymmetric(np, nb);
                            }
                        }
                    }
                    assert(text_le(ni, nb) && ni != nb);
                } else {
                    assert(leq(om[a - 1], om[b - 1]));
                }
            }
            assert(named_entries(tv.take(i + 1)) =~= named_entries(tv.take(i as int)).push(entry(i)));
        }
        i = i + 1;
    }
    assert(tv.take(i as int) =~= tv);
    let mut r: Vec<TemplateInfo> = Vec::new();
    let mut k: usize = 0;
    while k < order.len()
        invariant
            k <= order@.len(),
            tv == template_views(templates@),
            forall|j: int| 0 <= j < order@.len() ==> (#[trigger] order@[j]) < templates@.len(),
            r@.len() == k,
            forall|j: int| 0 <= j < k ==> (#[trigger] r@[j])@ == tv[order@[j] as int],
        decreases order@.len() - k,
    {
        r.push(templates[order[k]].duplicate());
        k = k + 1;
    }
    proof {
        lemma_name_then_index_total();
        let entries = named_entries(tv);
        let om = order@.map_values(|j: usize| (tv[j as int].name, j));
        entries.lemma_sort_by_ensures(leq);
        vstd::seq_lib::lemma_sorted_unique(om, entries.sort_by(leq), leq);
        assert(template_views(r@) =~= sorted_by_name(tv));
    }
    r
}

/// The template that follows `active` among `ids`, wrapping round to the
/// first; when `active` is not listed the second template is next. With
/// fewer than two templates there is nothing to cycle to.
pub open spec fn next_template(ids: Seq<Seq<char>>, active: Seq<char>) -> Option<Seq<char>> {
    if ids.len() < 2 {
        None
    } else {
        let index = match first_position(ids, active) {
            Some(i) => i,
            None => 0,
        };
        Some(ids[(index + 1) % (ids.len() as int)])
    }
}

/// The position of the first `x` in `s`, if any.
pub open spec fn first_position(s: Seq<Seq<char>>, x: Seq<char>) -> Option<int>
    decreases s.len(),
{
    if s.len() == 0 {
        None
    } else {
        match first_position(s.drop_last(), x) {
            Some(i) => Some(i),
            None => if s.last() == x {
                Some(s.len() - 1)
            } else {
                None
            },
        }
    }
}

proof fn lemma_first_position(s: Seq<Seq<char>>, x: Seq<char>, k: int)
    requires
        0 <= k <= s.len(),
        forall|j: int| 0 <= j < k ==> s[j] != x,
    ensures
        first_position(s.take(k), x) is None,
    decreases k,
{
    if k > 0 {
        assert(s.take(k).drop_last() =~= s.take(k - 1));
        lemma_first_position(s, x, k - 1);
    }
}

/// The identifier of the template to switch to; see [`next_template`].
pub fn next_template_id(ids: &Vec<String>, active: &str) -> (r: Option<String>)
    ensures
        match r {
            Some(s) => next_template(ids@.map_values(|t: String| t@), active@) == Some(s@),
            None => next_template(ids@.map_values(|t: String| t@), active@) is None,
        },
{
    let ghost views = ids@.map_values(|t: String| t@);
    let n = ids.len();
    if n < 2 {
        return None;
    }
    let a = chars_of(active);
    let mut index: usize = 0;
    let mut found = false;
    let mut k: usize = 0;
    while k < n && !found
        invariant
            n == ids@.len(),
            views == ids@.map_values(|t: String| t@),
            k <= n,
            2 <= n,
            a@ == active@,
            !found ==> index == 0,
            found ==> (k > 0 && index == k - 1 && first_position(views.take(k as int), active@) == Some(
                index as int,
            )),
            !found ==> forall|j: int| 0 <= j < k ==> views[j] != active@,
        decreases n - k + (if found { 0int } else { 1int }),
    {
        let candidate = chars_of(ids[k].as_str());
        if same_chars(&candidate, &a) {
            proof {
                lemma_first_position(views, active@, k as int);
                assert(views.take(k + 1).drop_last() =~= views.take(k as int));
            }
            found = true;
            index = k;
        }
        k = k + 1;
    }
    proof {
        if found {
            assert forall|m: int| k <= m <= n implies first_position(views.take(m), active@) == Some(
                index as int,
            ) by {
                lemma_first_position_extends(views, active@, k as int, m, index as int);
            }
            assert(views.take(n as int) =~= views);
        } else {
            lemma_first_position(views, active@, n as int);
            assert(views.take(n as int) =~= views);
        }
    }
    let next = (index + 1) % n;
    Some(ids[next].clone())
}

proof fn lemma_first_position_extends(s: Seq<Seq<char>>, x: Seq<char>, k: int, m: int, i: int)
    requires
        0 <= k <= m <= s.len(),
        first_position(s.take(k), x) == Some(i),
    ensures
        first_position(s.take(m), x) == Some(i),
    decreases m - k,
{
    if m > k {
        lemma_first_position_extends(s, x, k, m - 1, i);
        assert(s.take(m).drop_last() =~= s.take(m - 1));
    }
}

/// The template reached from `active` after `n` presses of the cycle button.
pub open spec fn cycled(ids: Seq<Seq<char>>, active: Seq<char>, n: nat) -> Seq<char>
    decreases n,
{
    if n == 0 {
        active
    } else {
        let prev = cycled(ids, active, (n - 1) as nat);
        match next_template(ids, prev) {
            Some(x) => x,
            None => prev,
        }
    }
}

proof fn lemma_first_position_absent(s: Seq<Seq<char>>, x: Seq<char>)
    requires
        !s.contains(x),
    ensures
        first_position(s, x) is None,
{
    assert forall|j: int| 0 <= j < s.len() implies s[j] != x by {
        if s[j] == x {
            assert(s.contains(x));
        }
    }
    lemma_first_position(s, x, s.len() as int);
    assert(s.take(s.len() as int) =~= s);
}

proof fn lemma_first_position_distinct(s: Seq<Seq<char>>, j: int)
    requires
        s.no_duplicates(),
        0 <= j < s.len(),
    ensures
        first_position(s, s[j]) == Some(j),
    decreases s.len(),
{
    let d = s.drop_last();
    assert(d.no_duplicates());
    if j < s.len() - 1 {
        assert(d[j] == s[j]);
        lemma_first_position_distinct(d, j);
    } else {
        assert(!d.contains(s[j])) by {
            if d.contains(s[j]) {
                let i = choose|i: int| 0 <= i < d.len() && d[i] == s[j];
                assert(s[i] == s[j]);
            }
        }
        lemma_first_position_absent(d, s[j]);
    }
}

/// With two or more templates of distinct identifiers, each press of the
/// cycle button moves to the next template in the list, wrapping round, so
/// that after as many presses as there are templates the active one is back.
pub proof fn law_cycling_visits_templates_in_turn(ids: Seq<Seq<char>>, j: int, n: nat)
    requires
        ids.len() >= 2,
        ids.no_duplicates(),
        0 <= j < ids.len(),
    ensures
        cycled(ids, ids[j], n) == ids[(j + n) % (ids.len() as int)],
        cycled(ids, ids[j], ids.len()) == ids[j],
{
    lemma_cycled_steps(ids, j, n);
    lemma_cycling_full_turn(ids, j);
}

proof fn lemma_cycling_full_turn(ids: Seq<Seq<char>>, j: int)
    requires
        ids.len() >= 2,
        ids.no_duplicates(),
        0 <= j < ids.len(),
    ensures
        cycled(ids, ids[j], ids.len()) == ids[j],
{
    lemma_cycled_steps(ids, j, ids.len());
    vstd::arithmetic::div_mod::lemma_mod_add_multiples_vanish(j, ids.len() as int);
    vstd::arithmetic::div_mod::lemma_small_mod(j as nat, ids.len());
}

proof fn lemma_cycled_steps(ids: Seq<Seq<char>>, j: int, n: nat)
    requires
        ids.len() >= 2,
        ids.no_duplicates(),
        0 <= j < ids.len(),
    ensures
        cycled(ids, ids[j], n) == ids[(j + n) % (ids.len() as int)],
    decreases n,
{
    let len = ids.len() as int;
    if n > 0 {
        lemma_cycled_steps(ids, j, (n - 1) as nat);
        let k = (j + n - 1) % len;
        lemma_first_position_distinct(ids, k);
        vstd::arithmetic::div_mod::lemma_add_mod_noop_right(1, j + n - 1, len);
    } else {
        vstd::arithmetic::div_mod::lemma_small_mod(j as nat, len as nat);
    }
}

// ---------------------------------------------------------------------------
// The bootstrap sent to the front end
// ---------------------------------------------------------------------------

/// The configuration shown to the front end: the stored one, or the
/// defaults with `default_storage` when there is none, with a Windows
/// verbatim prefix dropped from a non-empty storage location.
pub open spec fn shown_config(config: Option<ConfigView>, default_storage: Seq<char>) -> ConfigView {
    let c = match config {
        Some(c) => c,
        None => default_config(default_storage),
    };
    if c.storage_directory.len() == 0 {
        c
    } else {
        ConfigView { storage_directory: without_verbatim_prefix(c.storage_directory), ..c }
    }
}

/// The configuration to show; see [`shown_config`].
pub fn bootstrap_config(config: Option<Config>, default_storage: String) -> (c: Config)
    ensures
        c@ == shown_config(
            match config {
                Some(c) => Some(c@),
                None => None,
            },
            default_storage@,
        ),
{
    let mut c = match config {
        Some(c) => c,
        None => Config::defaults(default_storage),
    };
    if !c.storage_directory.as_str().is_empty() {
        let storage = c.storage_directory.clone();
        c.storage_directory = strip_verbatim_prefix(storage);
    }
    c
}

/// The desks to offer: those in the database when it lists any, else those
/// kept in memory.
pub fn choose_desks(from_db: Option<Vec<Desk>>, cached: Vec<Desk>) -> (r: Vec<Desk>)
    ensures
        match from_db {
            Some(d) => if d@.len() > 0 {
                r@ == d@
            } else {
                r@ == cached@
            },
            None => r@ == cached@,
        },
{
    match from_db {
        Some(d) => if d.len() > 0 {
            d
        } else {
            cached
        },
        None => cached,
    }
}

/// Everything the windows need, assembled from what was read: `config` as
/// [`bootstrap_config`] gives it. The widget counts as configured when the
/// configuration is complete; only then is the active template (read by the
/// caller) sent, with its placeholders filled. The template list is sent
/// only when there is a storage location. Desks are chosen by
/// [`choose_desks`], and a pending storage location loses any Windows
/// verbatim prefix.
pub fn assemble_bootstrap(
    config: Config,
    question_types: Vec<QuestionType>,
    db_desks: Option<Vec<Desk>>,
    cached_desks: Vec<Desk>,
    stats: Stats,
    online: bool,
    last_error: Option<String>,
    template: Option<TemplatePayload>,
    templates: Vec<TemplateInfo>,
    default_storage: String,
    pending_storage: Option<String>,
) -> (b: Bootstrap)
    ensures
        b.configured == config_complete(config@),
        b.config@ == config@,
        b.question_types@ == question_types@,
        b.desks@ == (match db_desks {
            Some(d) => if d@.len() > 0 {
                d@
            } else {
                cached_desks@
            },
            None => cached_desks@,
        }),
        b.stats == stats,
        b.online == online,
        b.last_error == last_error,
        match template {
            Some(t) => if config_complete(config@) {
                b.template matches Some(p) && p@ == (TemplatePayloadView {
                    html: substituted(t@.html, config@),
                    ..t@
                })
            } else {
                b.template is None
            },
            None => b.template is None,
        },
        config@.storage_directory.len() == 0 ==> b.templates@.len() == 0,
        config@.storage_directory.len() > 0 ==> b.templates@ == templates@,
        b.default_storage == default_storage,
        match pending_storage {
            Some(p) => b.pending_storage matches Some(q) && q@ == without_verbatim_prefix(p@),
            None => b.pending_storage is None,
        },
{
    let configured = config.is_complete();
    let template = if configured {
        match template {
            Some(t) => {
                let html = substitute(t.html, &config);
                Some(
                    TemplatePayload {
                        id: t.id,
                        name: t.name,
                        html,
                        css: t.css,
                        js: t.js,
                        width: t.width,
                        height: t.height,
                    },
                )
            },
            None => None,
        }
    } else {
        None
    };
    let templates = if config.storage_directory.as_str().is_empty() {
        Vec::new()
    } else {
        templates
    };
    let pending_storage = match pending_storage {
        Some(p) => Some(strip_verbatim_prefix(p)),
        None => None,
    };
    Bootstrap {
        configured,
        config,
        question_types,
        desks: choose_desks(db_desks, cached_desks),
        stats,
        online,
        last_error,
        template,
        templates,
        default_storage,
        pending_storage,
    }
}

// ---------------------------------------------------------------------------
// Saving the settings
// ---------------------------------------------------------------------------

/// Whether the question types must be fetched again after a save: unless
/// the previous configuration was complete and had the same base URL and
/// desk.
pub open spec fn types_source_changed(previous: Option<ConfigView>, next: ConfigView) -> bool {
    match previous {
        Some(p) => if config_complete(p) {
            p.base_url != next.base_url || p.desk_id != next.desk_id
        } else {
            true
        },
        None => true,
    }
}

/// Whether the question types must be fetched again; see
/// [`types_source_changed`].
pub fn question_types_source_changed(previous: Option<&Config>, next: &Config) -> (b: bool)
    ensures
        b == types_source_changed(
            match previous {
                Some(p) => Some(p@),
                None => None,
            },
            next@,
        ),
{
    match previous {
        Some(prev) => if prev.is_complete() {
            !crate::text::str_is(prev.base_url.as_str(), &chars_of(next.base_url.as_str()))
                || prev.desk_id != next.desk_id
        } else {
            true
        },
        None => true,
    }
}

/// The configuration that a settings form describes, stored in `storage`,
/// before normalizing.
pub open spec fn input_config(input: SaveConfigInput, storage: Seq<char>) -> ConfigView {
    ConfigView {
        base_url: input.base_url@,
        desk_id: input.desk_id,
        desk_name: input.desk_name@,
        org_name: input.org_name@,
        window_title: input.window_title@,
        storage_directory: storage,
        update_mode: input.update_mode@,
        autostart: input.autostart,
        always_on_top: input.always_on_top,
        unfocused_opacity: input.unfocused_opacity,
        inactivity_enabled: input.inactivity_enabled,
        inactivity_minutes: input.inactivity_minutes,
        inactivity_message: input.inactivity_message@,
        active_template: input.active_template@,
    }
}

/// The configuration to save from a settings form: the form's values with
/// the storage location `storage` (the form's own location is not used),
/// normalized by the path rules of `style`; refused unless complete.
pub fn config_from_input(input: SaveConfigInput, storage: String, style: PathStyle) -> (r: Result<
    Config,
    AppError,
>)
    ensures
        config_complete(normalized_config(input_config(input, storage@), style)) ==> (r matches Ok(
            c,
        ) && c@ == normalized_config(input_config(input, storage@), style)),
        !config_complete(normalized_config(input_config(input, storage@), style)) ==> (r matches Err(
            AppError::Message(m),
        ) && m@ == "A base URL, desk, and storage location are required."@),
{
    let ghost expected = input_config(input, storage@);
    let mut config = Config {
        base_url: input.base_url,
        desk_id: input.desk_id,
        desk_name: input.desk_name,
        org_name: input.org_name,
        window_title: input.window_title,
        storage_directory: storage,
        update_mode: input.update_mode,
        autostart: input.autostart,
        always_on_top: input.always_on_top,
        unfocused_opacity: input.unfocused_opacity,
        inactivity_enabled: input.inactivity_enabled,
        inactivity_minutes: input.inactivity_minutes,
        inactivity_message: input.inactivity_message,
        active_template: input.active_template,
    };
    assert(config@ == expected);
    config.normalize(style);
    if !config.is_complete() {
        return Err(
            AppError::Message("A base URL, desk, and storage location are required.".to_owned()),
        );
    }
    Ok(config)
}

/// What to do with the desks and question types once a configuration has
/// been saved.
pub struct SavePlan {
    /// The desks to keep in memory.
    pub desks: Vec<Desk>,
    /// Whether the database's empty desk list is to be filled with `desks`.
    pub reseed_desks: bool,
    /// Whether the question types are to be fetched from the server.
    pub needs_remote_types: bool,
}

/// Plans the state after a save: the desks are those the database lists, or
/// those in memory when it lists none (which then go into the database);
/// the question types are fetched when their source changed or none are
/// cached.
pub fn plan_saved_state(
    previous: Option<&Config>,
    config: &Config,
    cached_types_empty: bool,
    db_desks: Vec<Desk>,
    memory_desks: Vec<Desk>,
) -> (p: SavePlan)
    ensures
        db_desks@.len() > 0 ==> p.desks@ == db_desks@ && !p.reseed_desks,
        db_desks@.len() == 0 ==> p.desks@ == memory_desks@ && p.reseed_desks == (memory_desks@.len()
            > 0),
        p.needs_remote_types == (types_source_changed(
            match previous {
                Some(c) => Some(c@),
                None => None,
            },
            config@,
        ) || cached_types_empty),
{
    let db_empty = db_desks.len() == 0;
    let desks = if !db_empty {
        db_desks
    } else {
        memory_desks
    };
    let reseed_desks = db_empty && desks.len() > 0;
    let needs_remote_types = question_types_source_changed(previous, config) || cached_types_empty;
    SavePlan { desks, reseed_desks, needs_remote_types }
}

// ---------------------------------------------------------------------------
// Storage and the folder dialog
// ---------------------------------------------------------------------------

/// The storage location to check when none is chosen yet: the pending
/// choice if there is one, else the configured location if it is not
/// empty. `None` means the default location applies.
pub fn pending_or_configured(pending: Option<String>, configured: Option<String>) -> (r: Option<
    String,
>)
    ensures
        match pending {
            Some(p) => r matches Some(s) && s@ == p@,
            None => match configured {
                Some(c) => if c@.len() > 0 {
                    r matches Some(s) && s@ == c@
                } else {
                    r is None
                },
                None => r is None,
            },
        },
{
    match pending {
        Some(p) => Some(p),
        None => match configured {
            Some(c) => if c.as_str().is_empty() {
                None
            } else {
                Some(c)
            },
            None => None,
        },
    }
}

/// Where the folder dialog opens: the location itself when it exists, else
/// its parent when that exists, without a Windows verbatim prefix.
pub fn folder_dialog_start(
    path: String,
    path_exists: bool,
    parent: Option<String>,
    parent_exists: bool,
) -> (r: Option<String>)
    ensures
        path_exists ==> (r matches Some(s) && s@ == without_verbatim_prefix(path@)),
        !path_exists ==> match parent {
            Some(p) => if parent_exists {
                r matches Some(s) && s@ == without_verbatim_prefix(p@)
            } else {
                r is None
            },
            None => r is None,
        },
{
    if path_exists {
        return Some(strip_verbatim_prefix(path));
    }
    match parent {
        Some(p) => if parent_exists {
            Some(strip_verbatim_prefix(p))
        } else {
            None
        },
        None => None,
    }
}

// ---------------------------------------------------------------------------
// Placing the widget
// ---------------------------------------------------------------------------

/// The gap, in pixels, kept between the widget and the work area's edges.
pub const WIDGET_MARGIN: i32 = 12;

/// `x` limited to the range from `lo` to `hi`.
pub open spec fn clamped(x: int, lo: int, hi: int) -> int {
    if x < lo {
        lo
    } else if x > hi {
        hi
    } else {
        x
    }
}

/// Moves the point `(x, y)` so that a window of the given size stays
/// `margin` inside the work area; where the area is too small, the window
/// keeps to its left and top edges.
pub fn clamp_to_work_area(
    x: i32,
    y: i32,
    width: i32,
    height: i32,
    left: i32,
    top: i32,
    right: i32,
    bottom: i32,
    margin: i32,
) -> (r: (i32, i32))
    requires
        i32::MIN <= left + margin <= i32::MAX,
        i32::MIN <= top + margin <= i32::MAX,
        i32::MIN <= right - width <= i32::MAX,
        i32::MIN <= right - width - margin <= i32::MAX,
        i32::MIN <= bottom - height <= i32::MAX,
        i32::MIN <= bottom - height - margin <= i32::MAX,
    ensures
        ({
            let min_x = left + margin;
            let min_y = top + margin;
            let max_x = if right - width - margin > min_x { right - width - margin } else { min_x };
            let max_y = if bottom - height - margin > min_y {
                bottom - height - margin
            } else {
                min_y
            };
            r.0 == clamped(x as int, min_x, max_x) && r.1 == clamped(y as int, min_y, max_y)
        }),
        left + margin <= r.0,
        top + margin <= r.1,
        right - width - margin >= left + margin ==> r.0 + width + margin <= right,
        bottom - height - margin >= top + margin ==> r.1 + height + margin <= bottom,
{
    let min_x = left + margin;
    let min_y = top + margin;
    let a = right - width - margin;
    let b = bottom - height - margin;
    let max_x = if a > min_x { a } else { min_x };
    let max_y = if b > min_y { b } else { min_y };
    let cx = if x < min_x { min_x } else if x > max_x { max_x } else { x };
    let cy = if y < min_y { min_y } else if y > max_y { max_y } else { y };
    (cx, cy)
}

/// Where the widget's top-left corner goes before clamping: docked (or with
/// no earlier rectangle) in the bottom-right corner of the work area
/// `margin` in; otherwise so that its bottom-right corner stays where the
/// earlier rectangle's was. `width` and `height` are the window's outer size.
pub open spec fn widget_anchor(
    width: int,
    height: int,
    right: int,
    bottom: int,
    dock: bool,
    prior: Option<OuterRect>,
    margin: int,
) -> (int, int) {
    if dock || prior is None {
        (right - width - margin, bottom - height - margin)
    } else {
        let p = prior->0;
        (p.x + (p.width as i32) - width, p.y + (p.height as i32) - height)
    }
}

/// Where to put the widget: its anchor (see [`widget_anchor`]) clamped into
/// the work area by [`clamp_to_work_area`].
pub fn widget_position(
    width: i32,
    height: i32,
    bounds: (i32, i32, i32, i32),
    dock: bool,
    prior: Option<OuterRect>,
) -> (r: (i32, i32))
    requires
        ({
            let (left, top, right, bottom) = bounds;
            let m = WIDGET_MARGIN as int;
            &&& i32::MIN <= left + m <= i32::MAX
            &&& i32::MIN <= top + m <= i32::MAX
            &&& i32::MIN <= right - width <= i32::MAX
            &&& i32::MIN <= right - width - m <= i32::MAX
            &&& i32::MIN <= bottom - height <= i32::MAX
            &&& i32::MIN <= bottom - height - m <= i32::MAX
            &&& (!dock && prior is Some) ==> {
                let p = prior->0;
                &&& i32::MIN <= p.x + (p.width as i32) <= i32::MAX
                &&& i32::MIN <= p.x + (p.width as i32) - width <= i32::MAX
                &&& i32::MIN <= p.y + (p.height as i32) <= i32::MAX
                &&& i32::MIN <= p.y + (p.height as i32) - height <= i32::MAX
            }
        }),
    ensures
        ({
            let (left, top, right, bottom) = bounds;
            let m = WIDGET_MARGIN as int;
            let (ax, ay) = widget_anchor(
                width as int,
                height as int,
                right as int,
                bottom as int,
                dock,
                prior,
                m,
            );
            let min_x = left + m;
            let min_y = top + m;
            let max_x = if right - width - m > min_x { right - width - m } else { min_x };
            let max_y = if bottom - height - m > min_y { bottom - height - m } else { min_y };
            r.0 == clamped(ax, min_x, max_x) && r.1 == clamped(ay, min_y, max_y)
        }),
{
    let (left, top, right, bottom) = bounds;
    let (x, y) = match prior {
        Some(p) if !dock => (p.x + (p.width as i32) - width, p.y + (p.height as i32) - height),
        _ => (right - width - WIDGET_MARGIN, bottom - height - WIDGET_MARGIN),
    };
    clamp_to_work_area(x, y, width, height, left, top, right, bottom, WIDGET_MARGIN)
}

/// A size in physical pixels grown by the window frame: the outer size's
/// excess over the inner size, when positive.
pub fn add_frame(size: i32, outer: u32, inner: u32) -> (r: i32)
    requires
        i32::MIN <= (outer as i32) - (inner as i32) <= i32::MAX,
        i32::MIN <= size + (if (outer as i32) - (inner as i32) > 0 {
            (outer as i32) - (inner as i32)
        } else {
            0
        }) <= i32::MAX,
    ensures
        r == size + (if (outer as i32) - (inner as i32) > 0 {
            (outer as i32) - (inner as i32)
        } else {
            0
        }),
{
    let extra = (outer as i32) - (inner as i32);
    let extra = if extra > 0 { extra } else { 0 };
    size + extra
}

/// The bounds (left, top, right, bottom) of a monitor at `(x, y)` of the
/// given size.
pub fn monitor_rect(x: i32, y: i32, width: u32, height: u32) -> (r: (i32, i32, i32, i32))
    requires
        i32::MIN <= x + (width as i32) <= i32::MAX,
        i32::MIN <= y + (height as i32) <= i32::MAX,
    ensures
        r == (x, y, (x + (width as i32)) as i32, (y + (height as i32)) as i32),
{
    (x, y, x + (width as i32), y + (height as i32))
}

/// Half of `v`, rounded toward zero as integer division does.
pub open spec fn half_toward_zero(v: int) -> int {
    if v >= 0 {
        v / 2
    } else {
        -((-v) / 2)
    }
}

/// The centre of an earlier widget rectangle, used to find its monitor. The
/// size is read as an `i32` (wrapping above `i32::MAX`), as the placement
/// code does.
pub fn rect_center(prior: &OuterRect) -> (r: (i32, i32))
    requires
        i32::MIN <= prior.x + half_toward_zero(prior.width as i32 as int) <= i32::MAX,
        i32::MIN <= prior.y + half_toward_zero(prior.height as i32 as int) <= i32::MAX,
    ensures
        r.0 == prior.x + half_toward_zero(prior.width as i32 as int),
        r.1 == prior.y + half_toward_zero(prior.height as i32 as int),
{
    (prior.x + (prior.width as i32) / 2, prior.y + (prior.height as i32) / 2)
}

} // verus!

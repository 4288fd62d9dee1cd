//! The widget's configuration and the rules that keep it well formed.
//!
//! Path rules follow the platform the widget runs on, passed in as a
//! [`PathStyle`].
use vstd::prelude::*;

use crate::error::AppError;
use crate::paths::{
    ascii_alpha, has_dot_component, has_dot_component_exec, is_absolute, is_absolute_path,
    join_path, joined_path, path_starts_with, path_within, PathStyle,
};
use crate::text::{
    chars_of, has_prefix, slice_chars, starts_with, str_is, string_from_chars, trim, trim_chars,
};

verus! {

/// The settings of one desk widget.
#[derive(Debug, Clone)]
pub struct Config {
    pub base_url: String,
    pub desk_id: i64,
    pub desk_name: String,
    pub org_name: String,
    pub window_title: String,
    pub storage_directory: String,
    pub update_mode: String,
    pub autostart: bool,
    pub always_on_top: bool,
    pub unfocused_opacity: u8,
    pub inactivity_enabled: bool,
    pub inactivity_minutes: u32,
    pub inactivity_message: String,
    pub active_template: String,
}

/// A [`Config`] with its texts as character sequences.
pub struct ConfigView {
    pub base_url: Seq<char>,
    pub desk_id: i64,
    pub desk_name: Seq<char>,
    pub org_name: Seq<char>,
    pub window_title: Seq<char>,
    pub storage_directory: Seq<char>,
    pub update_mode: Seq<char>,
    pub autostart: bool,
    pub always_on_top: bool,
    pub unfocused_opacity: u8,
    pub inactivity_enabled: bool,
    pub inactivity_minutes: u32,
    pub inactivity_message: Seq<char>,
    pub active_template: Seq<char>,
}

impl View for Config {
    type V = ConfigView;

    open spec fn view(&self) -> ConfigView {
        ConfigView {
            base_url: self.base_url@,
            desk_id: self.desk_id,
            desk_name: self.desk_name@,
            org_name: self.org_name@,
            window_title: self.window_title@,
            storage_directory: self.storage_directory@,
            update_mode: self.update_mode@,
            autostart: self.autostart,
            always_on_top: self.always_on_top,
            unfocused_opacity: self.unfocused_opacity,
            inactivity_enabled: self.inactivity_enabled,
            inactivity_minutes: self.inactivity_minutes,
            inactivity_message: self.inactivity_message@,
            active_template: self.active_template@,
        }
    }
}

// ---------------------------------------------------------------------------
// Defaults
// ---------------------------------------------------------------------------

/// The window title used when none is set.
pub fn default_title() -> (s: String)
    ensures
        s@ == "StatTracker"@,
{
    "StatTracker".to_owned()
}

/// The update mode used when none is set.
pub fn default_update_mode() -> (s: String)
    ensures
        s@ == "notify"@,
{
    "notify".to_owned()
}

/// Settings that are switched on unless the file says otherwise.
pub fn default_true() -> (b: bool)
    ensures
        b,
{
    true
}

/// The opacity, in percent, of the widget while it is not focused.
pub fn default_opacity() -> (o: u8)
    ensures
        o == 55,
{
    55
}

/// Minutes without a tally before the inactivity reminder.
pub fn default_inactivity_minutes() -> (m: u32)
    ensures
        m == 15,
{
    15
}

/// The inactivity reminder used when none is set.
pub fn default_inactivity_message() -> (s: String)
    ensures
        s@ == "No questions have been recorded recently. Please remember to log desk activity."@,
{
    "No questions have been recorded recently. Please remember to log desk activity.".to_owned()
}

/// The template used when none is set.
pub fn default_template() -> (s: String)
    ensures
        s@ == "horizontal"@,
{
    "horizontal".to_owned()
}

/// The configuration of a widget that has not been set up, stored in
/// `storage_directory`.
pub open spec fn default_config(storage_directory: Seq<char>) -> ConfigView {
    ConfigView {
        base_url: Seq::empty(),
        desk_id: 0,
        desk_name: Seq::empty(),
        org_name: Seq::empty(),
        window_title: "StatTracker"@,
        storage_directory,
        update_mode: "notify"@,
        autostart: true,
        always_on_top: false,
        unfocused_opacity: 55,
        inactivity_enabled: false,
        inactivity_minutes: 15,
        inactivity_message: "No questions have been recorded recently. Please remember to log desk activity."@,
        active_template: "horizontal"@,
    }
}

// ---------------------------------------------------------------------------
// Base URL and template identifiers
// ---------------------------------------------------------------------------

/// `url` trimmed, with a `/` added at the end unless it is empty or ends in one.
pub open spec fn normalized_base_url(url: Seq<char>) -> Seq<char> {
    let t = trim(url);
    if t.len() == 0 || t.last() == '/' {
        t
    } else {
        t.push('/')
    }
}

/// The base URL trimmed, with a trailing `/` unless it is empty.
pub fn normalize_base_url(url: &str) -> (s: String)
    ensures
        s@ == normalized_base_url(url@),
{
    let v = chars_of(url);
    let mut t = trim_chars(&v);
    if t.len() > 0 && t[t.len() - 1] != '/' {
        t.push('/');
    }
    string_from_chars(&t)
}

/// `id` names exactly one ordinary path component: it is not empty, holds
/// no `/`, `\` or NUL, is neither `.` nor `..`, and on Windows does not
/// begin with a drive such as `C:`.
pub open spec fn safe_template_id(id: Seq<char>, style: PathStyle) -> bool {
    &&& id.len() > 0
    &&& !id.contains('/')
    &&& !id.contains('\\')
    &&& !id.contains('\0')
    &&& id != seq!['.']
    &&& id != seq!['.', '.']
    &&& !(style == PathStyle::Windows && id.len() >= 2 && ascii_alpha(id[0]) && id[1] == ':')
}

/// Whether `id` may name a folder under `templates/`.
pub fn is_safe_template_id(id: &str, style: PathStyle) -> (b: bool)
    ensures
        b == safe_template_id(id@, style),
{
    let v = chars_of(id);
    if v.len() == 0 {
        return false;
    }
    if style == PathStyle::Windows && v.len() >= 2 && v[1] == ':' {
        let u = v[0] as u32;
        if (65 <= u && u <= 90) || (97 <= u && u <= 122) {
            return false;
        }
    }
    let mut k: usize = 0;
    while k < v.len()
        invariant
            v@ == id@,
            k <= v@.len(),
            forall|j: int| 0 <= j < k ==> v@[j] != '/' && v@[j] != '\\' && v@[j] != '\0',
        decreases v@.len() - k,
    {
        let c = v[k];
        if c == '/' || c == '\\' || c == '\0' {
            assert(v@[k as int] == c);
            assert(v@.contains(c));
            assert(!safe_template_id(v@, style));
            return false;
        }
        k = k + 1;
    }
    if v.len() == 1 && v[0] == '.' {
        assert(v@ =~= seq!['.']);
        return false;
    }
    if v.len() == 2 && v[0] == '.' && v[1] == '.' {
        assert(v@ =~= seq!['.', '.']);
        return false;
    }
    assert(v@ != seq!['.']) by {
        if v@ == seq!['.'] {
            assert(v@[0] == '.');
        }
    }
    assert(v@ != seq!['.', '.']) by {
        if v@ == seq!['.', '.'] {
            assert(v@[0] == '.' && v@[1] == '.');
        }
    }
    true
}

// ---------------------------------------------------------------------------
// The configuration itself
// ---------------------------------------------------------------------------

/// The configuration as `normalize` leaves it.
pub open spec fn normalized_config(c: ConfigView, style: PathStyle) -> ConfigView {
    ConfigView {
        base_url: normalized_base_url(c.base_url),
        unfocused_opacity: if c.unfocused_opacity > 100 { 100 } else { c.unfocused_opacity },
        update_mode: if c.update_mode == "silent"@ { c.update_mode } else { "notify"@ },
        active_template: if safe_template_id(c.active_template, style) {
            c.active_template
        } else {
            "horizontal"@
        },
        window_title: if c.window_title.len() == 0 { "StatTracker"@ } else { c.window_title },
        inactivity_minutes: if c.inactivity_minutes == 0 { 15 } else { c.inactivity_minutes },
        ..c
    }
}

/// The widget has what it needs to record tallies: a base URL, a desk and a
/// storage location.
pub open spec fn config_complete(c: ConfigView) -> bool {
    c.base_url.len() > 0 && c.desk_id > 0 && c.storage_directory.len() > 0
}

impl Config {
    /// The configuration of a widget that has not been set up yet.
    pub fn defaults(storage_directory: String) -> (c: Config)
        ensures
            c@ == default_config(storage_directory@),
    {
        Config {
            base_url: String::new(),
            desk_id: 0,
            desk_name: String::new(),
            org_name: String::new(),
            window_title: default_title(),
            storage_directory,
            update_mode: default_update_mode(),
            autostart: true,
            always_on_top: false,
            unfocused_opacity: default_opacity(),
            inactivity_enabled: false,
            inactivity_minutes: default_inactivity_minutes(),
            inactivity_message: default_inactivity_message(),
            active_template: default_template(),
        }
    }

    /// Whether a base URL, a desk and a storage location are all set.
    pub fn is_complete(&self) -> (b: bool)
        ensures
            b == config_complete(self@),
    {
        !self.base_url.as_str().is_empty() && self.desk_id > 0 && !self.storage_directory.as_str().is_empty()
    }

    /// A copy with the same contents.
    pub fn duplicate(&self) -> (c: Config)
        ensures
            c@ == self@,
    {
        Config {
            base_url: self.base_url.clone(),
            desk_id: self.desk_id,
            desk_name: self.desk_name.clone(),
            org_name: self.org_name.clone(),
            window_title: self.window_title.clone(),
            storage_directory: self.storage_directory.clone(),
            update_mode: self.update_mode.clone(),
            autostart: self.autostart,
            always_on_top: self.always_on_top,
            unfocused_opacity: self.unfocused_opacity,
            inactivity_enabled: self.inactivity_enabled,
            inactivity_minutes: self.inactivity_minutes,
            inactivity_message: self.inactivity_message.clone(),
            active_template: self.active_template.clone(),
        }
    }

    /// Brings every setting into its allowed range: the base URL ends in `/`,
    /// the opacity is at most 100, the update mode is `notify` or `silent`,
    /// the template is a safe identifier, the title is not empty and the
    /// inactivity period is not zero.
    pub fn normalize(&mut self, style: PathStyle)
        ensures
            final(self)@ == normalized_config(old(self)@, style),
    {
        self.base_url = normalize_base_url(self.base_url.as_str());
        if self.unfocused_opacity > 100 {
            self.unfocused_opacity = 100;
        }
        let silent = chars_of("silent");
        if !str_is(self.update_mode.as_str(), &silent) {
            self.update_mode = default_update_mode();
        }
        if !is_safe_template_id(self.active_template.as_str(), style) {
            self.active_template = default_template();
        }
        if self.window_title.as_str().is_empty() {
            self.window_title = default_title();
        }
        if self.inactivity_minutes == 0 {
            self.inactivity_minutes = default_inactivity_minutes();
        }
    }
}


// ---------------------------------------------------------------------------
// Paths
// ---------------------------------------------------------------------------

/// The configuration file inside a storage folder.
pub fn config_path_in(storage: &str, style: PathStyle) -> (s: String)
    ensures
        s@ == joined_path(style, storage@, "config.toml"@),
{
    join_path(style, storage, "config.toml")
}

/// The database file inside a storage folder.
pub fn db_path(storage: &str, style: PathStyle) -> (s: String)
    ensures
        s@ == joined_path(style, storage@, "stattracker.db"@),
{
    join_path(style, storage, "stattracker.db")
}

/// `\\?\UNC\server\share` becomes `\\server\share`, `\\?\C:\dir` becomes
/// `C:\dir`; any other path is kept.
pub open spec fn without_verbatim_prefix(p: Seq<char>) -> Seq<char> {
    if starts_with(p, "\\\\?\\UNC\\"@) {
        "\\\\"@ + p.skip(8)
    } else if starts_with(p, "\\\\?\\"@) {
        p.skip(4)
    } else {
        p
    }
}

/// Drops a Windows verbatim prefix (`\\?\`) from a path.
pub fn strip_verbatim_prefix(path: String) -> (s: String)
    ensures
        s@ == without_verbatim_prefix(path@),
{
    let v = chars_of(path.as_str());
    let unc = chars_of("\\\\?\\UNC\\");
    let verbatim = chars_of("\\\\?\\");
    proof {
        reveal_strlit("\\\\?\\UNC\\");
        reveal_strlit("\\\\?\\");
        reveal_strlit("\\\\");
    }
    if has_prefix(&v, &unc) {
        let mut out = chars_of("\\\\");
        let ghost head = out@;
        let mut k: usize = 8;
        while k < v.len()
            invariant
                8 <= k <= v@.len(),
                out@ == head + v@.subrange(8, k as int),
            decreases v@.len() - k,
        {
            out.push(v[k]);
            k = k + 1;
            assert(out@ =~= head + v@.subrange(8, k as int));
        }
        assert(v@.subrange(8, k as int) =~= v@.skip(8));
        string_from_chars(&out)
    } else if has_prefix(&v, &verbatim) {
        let rest = slice_chars(&v, 4, v.len());
        assert(rest@ =~= v@.skip(4));
        string_from_chars(&rest)
    } else {
        path
    }
}

/// What `normalize_storage_path` gives for `raw`, given what canonicalizing
/// the trimmed path gave (`None` when it failed).
pub open spec fn normalized_storage_path(
    raw: Seq<char>,
    canonical: Option<Seq<char>>,
    style: PathStyle,
) -> Result<
    Seq<char>,
    Seq<char>,
> {
    let t = trim(raw);
    if t.len() == 0 {
        Err("Storage location is empty."@)
    } else if canonical is Some {
        Ok(without_verbatim_prefix(canonical->0))
    } else if !is_absolute(style, t) {
        Err("Storage location must be an absolute path."@)
    } else if has_dot_component(style, t) {
        Err("Storage location must not contain '.' or '..'."@)
    } else {
        Ok(without_verbatim_prefix(t))
    }
}

/// Checks a storage location chosen by the user. `canonical` is what
/// canonicalizing the trimmed path gave on disk, `None` when that failed. An
/// empty location is refused; a canonical path is taken as it is; otherwise
/// the path must be absolute and hold no `.` or `..` component, by the
/// rules of `style`.
pub fn normalize_storage_path(raw: &str, canonical: Option<String>, style: PathStyle) -> (r: Result<
    String,
    AppError,
>)
    ensures
        match (r, normalized_storage_path(raw@, match canonical {
            Some(c) => Some(c@),
            None => None,
        }, style)) {
            (Ok(s), Ok(t)) => s@ == t,
            (Err(AppError::Message(m)), Err(t)) => m@ == t,
            _ => false,
        },
{
    let v = chars_of(raw);
    let t = trim_chars(&v);
    if t.len() == 0 {
        return Err(AppError::Message("Storage location is empty.".to_owned()));
    }
    match canonical {
        Some(c) => Ok(strip_verbatim_prefix(c)),
        None => {
            if !is_absolute_path(style, &t) {
                return Err(AppError::Message("Storage location must be an absolute path.".to_owned()));
            }
            if has_dot_component_exec(style, &t) {
                return Err(
                    AppError::Message("Storage location must not contain '.' or '..'.".to_owned()),
                );
            }
            Ok(strip_verbatim_prefix(string_from_chars(&t)))
        },
    }
}

/// The folder of template `template_id` under `storage`, refused unless the
/// identifier is safe.
pub fn template_dir(storage: &str, template_id: &str, style: PathStyle) -> (r: Result<
    String,
    AppError,
>)
    ensures
        safe_template_id(template_id@, style) ==> (r matches Ok(s) && s@ == joined_path(
            style,
            joined_path(style, storage@, "templates"@),
            template_id@,
        )),
        !safe_template_id(template_id@, style) ==> (r matches Err(AppError::Message(m)) && m@
            == "Template '"@ + template_id@ + "' is not allowed."@),
{
    if !is_safe_template_id(template_id, style) {
        let mut m = "Template '".to_owned();
        m.append(template_id);
        m.append("' is not allowed.");
        return Err(AppError::Message(m));
    }
    let root = join_path(style, storage, "templates");
    Ok(join_path(style, root.as_str(), template_id))
}

/// Whether the bundled template folder `name` is copied into the storage
/// `templates/` folder: only a safe identifier is, and a copy that is
/// already there is kept unless `refresh` (a development build) asks for
/// the bundled one again, so customized templates survive.
pub fn copies_bundled_template(name: &str, already_there: bool, refresh: bool, style: PathStyle) -> (b: bool)
    ensures
        b == (safe_template_id(name@, style) && (!already_there || refresh)),
        already_there && !refresh ==> !b,
{
    is_safe_template_id(name, style) && (!already_there || refresh)
}

/// Keeps a template folder inside the templates folder. `canonical` holds
/// the canonical paths of the templates folder and of `candidate` when both
/// exist on disk; the candidate is then accepted, in canonical form, only if
/// it lies within the templates folder. Otherwise `candidate` is kept as it
/// is.
pub fn confine_template_path(
    candidate: String,
    canonical: Option<(String, String)>,
    style: PathStyle,
) -> (r: Result<
    String,
    AppError,
>)
    ensures
        match canonical {
            None => r matches Ok(s) && s@ == candidate@,
            Some((root, cand)) => if path_within(style, cand@, root@) {
                r matches Ok(s) && s@ == cand@
            } else {
                r matches Err(AppError::Message(m)) && m@
                    == "Template path is outside the templates directory."@
            },
        },
{
    match canonical {
        None => Ok(candidate),
        Some((root, cand)) => {
            if path_starts_with(style, cand.as_str(), root.as_str()) {
                Ok(cand)
            } else {
                Err(AppError::Message("Template path is outside the templates directory.".to_owned()))
            }
        },
    }
}

// ---------------------------------------------------------------------------
// Laws
// ---------------------------------------------------------------------------

proof fn lemma_trim_start_fixed(s: Seq<char>)
    ensures
        crate::text::trim_start(crate::text::trim_start(s)) == crate::text::trim_start(s),
    decreases s.len(),
{
    if s.len() > 0 && crate::text::is_ws(s[0]) {
        lemma_trim_start_fixed(s.drop_first());
    }
}

proof fn lemma_trim_start_head(s: Seq<char>)
    ensures
        crate::text::trim_start(s).len() == 0 || !crate::text::is_ws(crate::text::trim_start(s)[0]),
    decreases s.len(),
{
    if s.len() > 0 && crate::text::is_ws(s[0]) {
        lemma_trim_start_head(s.drop_first());
    }
}

proof fn lemma_trim_end_fixed(s: Seq<char>)
    ensures
        crate::text::trim_end(crate::text::trim_end(s)) == crate::text::trim_end(s),
        crate::text::trim_end(s).len() > 0 ==> !crate::text::is_ws(crate::text::trim_end(s).last()),
    decreases s.len(),
{
    if s.len() > 0 && crate::text::is_ws(s.last()) {
        lemma_trim_end_fixed(s.drop_last());
    }
}

proof fn lemma_trim_start_of_trim_end(s: Seq<char>)
    requires
        s.len() == 0 || !crate::text::is_ws(s[0]),
    ensures
        crate::text::trim_end(s).len() == 0 || !crate::text::is_ws(crate::text::trim_end(s)[0]),
    decreases s.len(),
{
    if s.len() > 0 && crate::text::is_ws(s.last()) {
        if s.len() > 1 {
            assert(s.drop_last()[0] == s[0]);
        }
        lemma_trim_start_of_trim_end(s.drop_last());
    }
}

/// A storage location that was not resolved on disk is accepted only as an
/// absolute path without a `.` or `..` component, and is kept as trimmed,
/// less a verbatim prefix; on Unix it is kept exactly as trimmed and starts
/// with `/`.
pub proof fn law_unresolved_storage_paths_are_absolute(raw: Seq<char>, style: PathStyle)
    ensures
        normalized_storage_path(raw, None, style) matches Ok(p) ==> {
            &&& is_absolute(style, trim(raw))
            &&& !has_dot_component(style, trim(raw))
            &&& p == without_verbatim_prefix(trim(raw))
        },
        style == PathStyle::Unix ==> (normalized_storage_path(raw, None, style) matches Ok(p)
            ==> p == trim(raw) && p.len() > 0 && p[0] == '/'),
{
    let t = trim(raw);
    if style == PathStyle::Unix && t.len() > 0 && t[0] == '/' {
        reveal_strlit("\\\\?\\UNC\\");
        reveal_strlit("\\\\?\\");
        assert(!starts_with(t, "\\\\?\\UNC\\"@)) by {
            if t.len() >= 8 {
                assert(t.subrange(0, 8)[0] == t[0]);
            }
        }
        assert(!starts_with(t, "\\\\?\\"@)) by {
            if t.len() >= 4 {
                assert(t.subrange(0, 4)[0] == t[0]);
            }
        }
    }
}

/// Trimming twice gives what trimming once gives.
pub proof fn lemma_trim_idempotent(s: Seq<char>)
    ensures
        trim(trim(s)) == trim(s),
{
    let a = crate::text::trim_start(s);
    lemma_trim_start_fixed(s);
    lemma_trim_start_head(s);
    assert(a.len() == 0 || !crate::text::is_ws(a[0]));
    let b = crate::text::trim_end(a);
    lemma_trim_start_of_trim_end(a);
    assert(crate::text::trim_start(b) == b);
    lemma_trim_end_fixed(a);
}

/// Normalizing a base URL twice gives what normalizing once gives.
pub proof fn law_base_url_normalization_idempotent(url: Seq<char>)
    ensures
        normalized_base_url(normalized_base_url(url)) == normalized_base_url(url),
{
    let t = trim(url);
    lemma_trim_idempotent(url);
    lemma_trim_end_fixed(crate::text::trim_start(url));
    if t.len() > 0 && t.last() != '/' {
        let u = t.push('/');
        assert(!crate::text::is_ws(u.last()));
        assert(u.drop_last() =~= t);
        assert(crate::text::trim_end(u) == u);
        assert(u[0] == t[0]);
        lemma_trim_start_head(url);
        lemma_trim_start_of_trim_end(crate::text::trim_start(url));
        assert(!crate::text::is_ws(u[0]));
        assert(crate::text::trim_start(u) == u);
    }
}

/// Normalizing a configuration twice gives what normalizing once gives, and
/// a normalized configuration keeps every setting in its allowed range.
pub proof fn law_normalize_idempotent(c: ConfigView, style: PathStyle)
    ensures
        normalized_config(normalized_config(c, style), style) == normalized_config(c, style),
        normalized_config(c, style).unfocused_opacity <= 100,
        normalized_config(c, style).update_mode == "silent"@ || normalized_config(c, style).update_mode
            == "notify"@,
        safe_template_id(normalized_config(c, style).active_template, style),
        normalized_config(c, style).window_title.len() > 0,
        normalized_config(c, style).inactivity_minutes > 0,
{
    law_base_url_normalization_idempotent(c.base_url);
    reveal_strlit("horizontal");
    reveal_strlit("StatTracker");
    reveal_strlit("notify");
    reveal_strlit("silent");
    let h = "horizontal"@;
    assert(!h.contains('/') && !h.contains('\\') && !h.contains('\0'));
    assert(h[1] == 'o');
    assert(h != seq!['.']) by {
        assert(h.len() != 1);
    }
    assert(h != seq!['.', '.']) by {
        assert(h.len() != 2);
    }
    assert("notify"@ != "silent"@) by {
        assert("notify"@[0] != "silent"@[0]);
    }
}


/// Normalizing keeps every setting that is already in range: a safe
/// template identifier, an opacity of at most 100, the `silent` update
/// mode, a non-empty title and a non-zero inactivity period are left as they
/// are, and the settings normalization does not govern never change.
pub proof fn law_normalize_keeps_settings_in_range(c: ConfigView, style: PathStyle)
    ensures
        safe_template_id(c.active_template, style) ==> normalized_config(c, style).active_template
            == c.active_template,
        c.unfocused_opacity <= 100 ==> normalized_config(c, style).unfocused_opacity
            == c.unfocused_opacity,
        c.update_mode == "silent"@ ==> normalized_config(c, style).update_mode == c.update_mode,
        c.window_title.len() > 0 ==> normalized_config(c, style).window_title == c.window_title,
        c.inactivity_minutes > 0 ==> normalized_config(c, style).inactivity_minutes
            == c.inactivity_minutes,
        normalized_config(c, style).desk_id == c.desk_id,
        normalized_config(c, style).desk_name == c.desk_name,
        normalized_config(c, style).org_name == c.org_name,
        normalized_config(c, style).storage_directory == c.storage_directory,
        normalized_config(c, style).autostart == c.autostart,
        normalized_config(c, style).always_on_top == c.always_on_top,
        normalized_config(c, style).inactivity_enabled == c.inactivity_enabled,
        normalized_config(c, style).inactivity_message == c.inactivity_message,
{
}

} // verus!

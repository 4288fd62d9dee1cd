//! Update notices: version numbers and release notes.
use vstd::prelude::*;
use vstd::relations::{sorted_by, total_ordering};

use crate::text::{
    after_pat, before_pat, char_views, chars_of, decimal, find_from, has_prefix, is_ascii_digit,
    is_digit, join_chars, join_with, lines_of, parse_u64, parse_u64_chars, replace_all,
    replace_chars, slice_chars, split_lines, starts_with, string_from_chars, trim, trim_chars,
    trim_end, trim_end_chars, u64_decimal, last_index_of, rfind_char, push_all,
};

verus! {

/// A release version: major, minor, patch.
pub type Version = (u64, u64, u64);

/// `s` without its leading `v` and `V` characters.
pub open spec fn trim_start_v(s: Seq<char>) -> Seq<char>
    decreases s.len(),
{
    if s.len() > 0 && (s[0] == 'v' || s[0] == 'V') {
        trim_start_v(s.drop_first())
    } else {
        s
    }
}

/// The ASCII digits at the start of `s`.
pub open spec fn leading_digits(s: Seq<char>) -> Seq<char>
    decreases s.len(),
{
    if s.len() > 0 && is_digit(s[0]) {
        seq![s[0]] + leading_digits(s.drop_first())
    } else {
        Seq::empty()
    }
}

/// The texts of the major, minor and patch numbers in `t`: the part before
/// the first `.`, the next part (`0` when absent), and the digits at the
/// start of the part after that (`0` when absent).
pub open spec fn semver_texts(t: Seq<char>) -> (Seq<char>, Seq<char>, Seq<char>) {
    let dot = seq!['.'];
    match after_pat(t, dot) {
        None => (before_pat(t, dot), "0"@, "0"@),
        Some(r) => (
            before_pat(t, dot),
            before_pat(r, dot),
            match after_pat(r, dot) {
                None => "0"@,
                Some(r2) => leading_digits(before_pat(r2, dot)),
            },
        ),
    }
}

/// The version that a tag such as `v1.4.2` names. The text is trimmed and
/// its leading `v`s dropped; the part before the first `.` is the major
/// number, the next part the minor number (`0` when absent), and the digits
/// at the start of the part after that the patch number (`0` when absent).
/// Each must read as a `u64`.
pub open spec fn semver_of(value: Seq<char>) -> Option<Version> {
    let (a, b, c) = semver_texts(trim_start_v(trim(value)));
    match (parse_u64(a), parse_u64(b), parse_u64(c)) {
        (Some(a), Some(b), Some(c)) => Some((a, b, c)),
        _ => None,
    }
}

fn leading_digits_exec(v: &Vec<char>, from: usize, to: usize) -> (r: Vec<char>)
    requires
        from <= to <= v@.len(),
    ensures
        r@ == leading_digits(v@.subrange(from as int, to as int)),
{
    let mut k = from;
    while k < to && is_ascii_digit(v[k])
        invariant
            from <= k <= to <= v@.len(),
            forall|j: int| from <= j < k ==> is_digit(v@[j]),
            leading_digits(v@.subrange(from as int, to as int)) == v@.subrange(from as int, k as int)
                + leading_digits(v@.subrange(k as int, to as int)),
        decreases to - k,
    {
        assert(v@.subrange(k as int, to as int).drop_first() =~= v@.subrange(k + 1, to as int));
        assert(v@.subrange(from as int, k as int) + seq![v@[k as int]] =~= v@.subrange(
            from as int,
            k + 1,
        ));
        k = k + 1;
    }
    assert(leading_digits(v@.subrange(k as int, to as int)) =~= Seq::<char>::empty());
    assert(v@.subrange(from as int, k as int) + Seq::<char>::empty() =~= v@.subrange(
        from as int,
        k as int,
    ));
    slice_chars(v, from, k)
}

fn semver_texts_exec(u: &Vec<char>) -> (r: (Vec<char>, Vec<char>, Vec<char>))
    ensures
        (r.0@, r.1@, r.2@) == semver_texts(u@),
{
    assert(u@.skip(0) =~= u@);
    let n = u.len();
    let mut dot: Vec<char> = Vec::new();
    dot.push('.');
    assert(dot@ =~= seq!['.']);
    match find_from(u, 0, &dot) {
        None => (slice_chars(u, 0, u.len()), chars_of("0"), chars_of("0")),
        Some(i) => {
            let major_text = slice_chars(u, 0, i);
            let j0 = i + 1;
            match find_from(u, j0, &dot) {
                None => {
                    let minor_text = slice_chars(u, j0, u.len());
                    assert(minor_text@ =~= u@.skip(j0 as int));
                    (major_text, minor_text, chars_of("0"))
                },
                Some(i2) => {
                    let minor_text = slice_chars(u, j0, i2);
                    let j1 = i2 + 1;
                    assert(u@.skip(j0 as int).skip(i2 + 1 - j0) =~= u@.skip(j1 as int));
                    let patch_text = match find_from(u, j1, &dot) {
                        None => {
                            assert(u@.skip(j1 as int) =~= u@.subrange(j1 as int, u@.len() as int));
                            leading_digits_exec(u, j1, u.len())
                        },
                        Some(i3) => leading_digits_exec(u, j1, i3),
                    };
                    (major_text, minor_text, patch_text)
                },
            }
        },
    }
}

/// Reads a version number from a release tag; see [`semver_of`].
pub fn parse_semver(value: &str) -> (r: Option<Version>)
    ensures
        r == semver_of(value@),
{
    let v = chars_of(value);
    let t = trim_chars(&v);
    let mut s0: usize = 0;
    assert(t@.skip(0) =~= t@);
    while s0 < t.len() && (t[s0] == 'v' || t[s0] == 'V')
        invariant
            s0 <= t@.len(),
            trim_start_v(t@) == trim_start_v(t@.skip(s0 as int)),
        decreases t@.len() - s0,
    {
        assert(t@.skip(s0 as int).drop_first() =~= t@.skip(s0 + 1));
        s0 = s0 + 1;
    }
    let u = slice_chars(&t, s0, t.len());
    assert(u@ == trim_start_v(t@)) by {
        assert(t@.subrange(s0 as int, t@.len() as int) =~= t@.skip(s0 as int));
    }
    let (a, b, c) = semver_texts_exec(&u);
    match (parse_u64_chars(&a), parse_u64_chars(&b), parse_u64_chars(&c)) {
        (Some(x), Some(y), Some(z)) => Some((x, y, z)),
        _ => None,
    }
}

/// A version written as `major.minor.patch`.
pub open spec fn version_text(v: Version) -> Seq<char> {
    decimal(v.0 as nat) + seq!['.'] + decimal(v.1 as nat) + seq!['.'] + decimal(v.2 as nat)
}

fn append_chars(out: &mut Vec<char>, more: &Vec<char>)
    ensures
        final(out)@ == old(out)@ + more@,
{
    let ghost start = out@;
    let mut k: usize = 0;
    while k < more.len()
        invariant
            k <= more@.len(),
            out@ == start + more@.take(k as int),
        decreases more@.len() - k,
    {
        out.push(more[k]);
        k = k + 1;
        assert(out@ =~= start + more@.take(k as int));
    }
    assert(more@.take(k as int) =~= more@);
}

/// The characters of `v` written as `major.minor.patch`.
pub fn version_chars(v: Version) -> (r: Vec<char>)
    ensures
        r@ == version_text(v),
{
    let mut r = u64_decimal(v.0);
    r.push('.');
    append_chars(&mut r, &u64_decimal(v.1));
    r.push('.');
    append_chars(&mut r, &u64_decimal(v.2));
    assert(r@ =~= version_text(v));
    r
}

// ---------------------------------------------------------------------------
// The releases endpoint
// ---------------------------------------------------------------------------

/// The GitHub API address that lists the releases of the repository named in
/// an update endpoint such as `https://github.com/owner/repo/...`: the text
/// after the first `github.com/` (up to a second one) must begin with a
/// non-empty owner, a `/` and a non-empty repository name.
pub open spec fn releases_api_address(endpoint: Seq<char>) -> Option<Seq<char>> {
    let host = "github.com/"@;
    let slash = seq!['/'];
    match after_pat(endpoint, host) {
        None => None,
        Some(r) => {
            let path = before_pat(r, host);
            let owner = before_pat(path, slash);
            match after_pat(path, slash) {
                None => None,
                Some(r2) => {
                    let repo = before_pat(r2, slash);
                    if owner.len() == 0 || repo.len() == 0 {
                        None
                    } else {
                        Some(
                            "https://api.github.com/repos/"@ + owner + seq!['/'] + repo
                                + "/releases?per_page=30"@,
                        )
                    }
                },
            }
        },
    }
}

/// The address that lists the releases of the repository named in an
/// update endpoint; see [`releases_api_address`].
pub fn releases_api_url(endpoint: &str) -> (r: Option<String>)
    ensures
        match r {
            Some(s) => releases_api_address(endpoint@) == Some(s@),
            None => releases_api_address(endpoint@) is None,
        },
{
    let e = chars_of(endpoint);
    let n = e.len();
    let host = chars_of("github.com/");
    proof {
        reveal_strlit("github.com/");
    }
    let mut slash: Vec<char> = Vec::new();
    slash.push('/');
    assert(slash@ =~= seq!['/']);
    assert(e@.skip(0) =~= e@);
    let i = match find_from(&e, 0, &host) {
        None => {
            return None;
        },
        Some(i) => i,
    };
    let start = i + host.len();
    let end = match find_from(&e, start, &host) {
        None => e.len(),
        Some(j) => j,
    };
    let path = slice_chars(&e, start, end);
    assert(path@ == before_pat(e@.skip(start as int), host@)) by {
        assert(e@.skip(start as int).skip(0) =~= e@.skip(start as int));
        assert(e@.subrange(start as int, e@.len() as int) =~= e@.skip(start as int));
    }
    assert(path@.skip(0) =~= path@);
    let k = match find_from(&path, 0, &slash) {
        None => {
            return None;
        },
        Some(k) => k,
    };
    let owner = slice_chars(&path, 0, k);
    let rstart = k + 1;
    let rend = match find_from(&path, rstart, &slash) {
        None => path.len(),
        Some(j) => j,
    };
    let repo = slice_chars(&path, rstart, rend);
    assert(repo@ == before_pat(path@.skip(rstart as int), slash@)) by {
        assert(path@.subrange(rstart as int, path@.len() as int) =~= path@.skip(rstart as int));
    }
    if owner.len() == 0 || repo.len() == 0 {
        return None;
    }
    let mut out = chars_of("https://api.github.com/repos/");
    append_chars(&mut out, &owner);
    out.push('/');
    append_chars(&mut out, &repo);
    append_chars(&mut out, &chars_of("/releases?per_page=30"));
    assert(out@ =~= "https://api.github.com/repos/"@ + owner@ + seq!['/'] + repo@
        + "/releases?per_page=30"@);
    Some(string_from_chars(&out))
}


// ---------------------------------------------------------------------------
// Release notes as plain text
// ---------------------------------------------------------------------------

/// `s` without its leading `#` characters.
pub open spec fn trim_start_hashes(s: Seq<char>) -> Seq<char>
    decreases s.len(),
{
    if s.len() > 0 && s[0] == '#' {
        trim_start_hashes(s.drop_first())
    } else {
        s
    }
}

/// A non-blank Markdown line as plain text: trimmed, heading marks and the
/// space after them dropped, `**` and `__` removed, and a leading `- ` or
/// `* ` turned into a bullet.
pub open spec fn plain_note_line(raw: Seq<char>) -> Seq<char> {
    let t = trim(trim_start_hashes(trim(raw)));
    let u = replace_all(replace_all(t, "**"@, Seq::empty()), "__"@, Seq::empty());
    if starts_with(u, "- "@) || starts_with(u, "* "@) {
        "\u{2022} "@ + u.skip(2)
    } else {
        u
    }
}

/// The plain lines for the Markdown lines `lines`, and whether a blank line
/// is pending: blank lines are dropped, except that one empty line stands
/// between two groups of text that blank lines separated.
pub open spec fn plain_note_lines(lines: Seq<Seq<char>>) -> (Seq<Seq<char>>, bool)
    decreases lines.len(),
{
    if lines.len() == 0 {
        (Seq::empty(), false)
    } else {
        let (out, blank) = plain_note_lines(lines.drop_last());
        let raw = lines.last();
        if trim(raw).len() == 0 {
            (out, blank || out.len() > 0)
        } else {
            let out2 = if blank { out.push(Seq::empty()) } else { out };
            (out2.push(plain_note_line(raw)), false)
        }
    }
}

/// Markdown release notes as plain text: line endings made `\n`, each line
/// made plain, runs of blank lines collapsed into one, and the result
/// trimmed.
pub open spec fn plain_notes(markdown: Seq<char>) -> Seq<char> {
    let text = replace_all(markdown, "\r\n"@, "\n"@);
    trim(join_with(plain_note_lines(lines_of(text)).0, "\n"@))
}

fn plain_note_line_exec(raw: &Vec<char>) -> (r: Vec<char>)
    ensures
        r@ == plain_note_line(raw@),
{
    let t0 = trim_chars(raw);
    let mut h: usize = 0;
    assert(t0@.skip(0) =~= t0@);
    while h < t0.len() && t0[h] == '#'
        invariant
            h <= t0@.len(),
            trim_start_hashes(t0@) == trim_start_hashes(t0@.skip(h as int)),
        decreases t0@.len() - h,
    {
        assert(t0@.skip(h as int).drop_first() =~= t0@.skip(h + 1));
        h = h + 1;
    }
    let t1 = slice_chars(&t0, h, t0.len());
    assert(t1@ =~= t0@.skip(h as int));
    let t = trim_chars(&t1);
    let empty: Vec<char> = Vec::new();
    let stars = chars_of("**");
    let unders = chars_of("__");
    proof {
        reveal_strlit("**");
        reveal_strlit("__");
    }
    let u1 = replace_chars(&t, &stars, &empty);
    let u = replace_chars(&u1, &unders, &empty);
    let dash = chars_of("- ");
    let star = chars_of("* ");
    if has_prefix(&u, &dash) || has_prefix(&u, &star) {
        proof {
            reveal_strlit("- ");
            reveal_strlit("* ");
        }
        let mut r = chars_of("\u{2022} ");
        let rest = slice_chars(&u, 2, u.len());
        crate::text::push_all(&mut r, &rest);
        assert(rest@ =~= u@.skip(2));
        r
    } else {
        u
    }
}

/// Markdown release notes as plain text; see [`plain_notes`].
pub fn plain_release_notes(markdown: &str) -> (r: String)
    ensures
        r@ == plain_notes(markdown@),
{
    let md = chars_of(markdown);
    let crlf = chars_of("\r\n");
    let lf = chars_of("\n");
    proof {
        reveal_strlit("\r\n");
    }
    let text = replace_chars(&md, &crlf, &lf);
    let lines = split_lines(&text);
    let mut out: Vec<Vec<char>> = Vec::new();
    let mut blank = false;
    let mut k: usize = 0;
    assert(char_views(lines@).take(0) =~= Seq::<Seq<char>>::empty());
    while k < lines.len()
        invariant
            k <= lines@.len(),
            (char_views(out@), blank) == plain_note_lines(char_views(lines@).take(k as int)),
        decreases lines@.len() - k,
    {
        let raw = &lines[k];
        let ghost prefix = char_views(lines@).take(k as int);
        assert(char_views(lines@).take(k + 1).drop_last() =~= prefix);
        assert(char_views(lines@).take(k + 1).last() == raw@);
        let t = trim_chars(raw);
        if t.len() == 0 {
            if out.len() > 0 {
                blank = true;
            }
        } else {
            if blank {
                out.push(Vec::new());
                blank = false;
            }
            let ghost before = out@;
            out.push(plain_note_line_exec(raw));
            assert(char_views(out@) =~= char_views(before).push(plain_note_line(raw@)));
        }
        proof {
            if t@.len() != 0 {
                assert(char_views(out@) == plain_note_lines(char_views(lines@).take(k + 1)).0);
            }
        }
        k = k + 1;
    }
    assert(char_views(lines@).take(k as int) =~= char_views(lines@));
    let joined = join_chars(&out, &lf);
    let r = trim_chars(&joined);
    string_from_chars(&r)
}


// ---------------------------------------------------------------------------
// Truncation
// ---------------------------------------------------------------------------

/// The number of bytes `c` takes in UTF-8 (`char::len_utf8`).
pub open spec fn utf8_width(c: char) -> nat {
    let u = c as u32;
    if u < 0x80 {
        1
    } else if u < 0x800 {
        2
    } else if u < 0x10000 {
        3
    } else {
        4
    }
}

/// The number of bytes `s` takes in UTF-8.
pub open spec fn utf8_len(s: Seq<char>) -> nat
    decreases s.len(),
{
    if s.len() == 0 {
        0
    } else {
        utf8_len(s.drop_last()) + utf8_width(s.last())
    }
}

/// Notes cut to at most `max` characters: text that fits is kept as it is;
/// otherwise the first `max` characters are kept, cut back to the last line
/// break when that break lies more than `max / 2` bytes in, trimmed at the
/// end and followed by a line holding `…`.
pub open spec fn truncated_notes(text: Seq<char>, max: nat) -> Seq<char> {
    if text.len() <= max {
        text
    } else {
        let cut = text.take(max as int);
        let kept = match last_index_of(cut, '\n') {
            Some(j) => if utf8_len(cut.take(j)) > max / 2 {
                cut.take(j)
            } else {
                cut
            },
            None => cut,
        };
        trim_end(kept) + "\n\u{2026}"@
    }
}

fn char_width(c: char) -> (w: usize)
    ensures
        w == utf8_width(c),
{
    let u = c as u32;
    if u < 0x80 {
        1
    } else if u < 0x800 {
        2
    } else if u < 0x10000 {
        3
    } else {
        4
    }
}

/// Whether the first `j` characters of `v` take more than `limit` bytes.
fn utf8_prefix_exceeds(v: &Vec<char>, j: usize, limit: usize) -> (b: bool)
    requires
        j <= v@.len(),
        limit <= usize::MAX / 2,
    ensures
        b == (utf8_len(v@.take(j as int)) > limit),
{
    let mut acc: usize = 0;
    let mut k: usize = 0;
    assert(v@.take(0) =~= Seq::<char>::empty());
    while k < j
        invariant
            k <= j <= v@.len(),
            limit <= usize::MAX / 2,
            acc == utf8_len(v@.take(k as int)),
            acc <= limit,
        decreases j - k,
    {
        assert(v@.take(k + 1).drop_last() =~= v@.take(k as int));
        acc = acc + char_width(v[k]);
        k = k + 1;
        if acc > limit {
            proof {
                lemma_utf8_len_grows(v@, k as int, j as int);
            }
            return true;
        }
    }
    false
}

proof fn lemma_utf8_len_grows(s: Seq<char>, a: int, b: int)
    requires
        0 <= a <= b <= s.len(),
    ensures
        utf8_len(s.take(a)) <= utf8_len(s.take(b)),
    decreases b - a,
{
    if a < b {
        lemma_utf8_len_grows(s, a, b - 1);
        assert(s.take(b).drop_last() =~= s.take(b - 1));
    }
}

/// Notes cut to at most `max_chars` characters; see [`truncated_notes`].
pub fn truncate_notes(text: &str, max_chars: usize) -> (r: String)
    ensures
        r@ == truncated_notes(text@, max_chars as nat),
{
    let v = chars_of(text);
    if v.len() <= max_chars {
        return text.to_owned();
    }
    let cut = slice_chars(&v, 0, max_chars);
    assert(cut@ =~= v@.take(max_chars as int));
    let kept = match rfind_char(&cut, '\n') {
        Some(j) => {
            assert(j < cut@.len()) by {
                lemma_last_index_in_range(cut@, '\n');
            }
            if utf8_prefix_exceeds(&cut, j, max_chars / 2) {
                slice_chars(&cut, 0, j)
            } else {
                cut
            }
        },
        None => cut,
    };
    let mut out = trim_end_chars(&kept);
    push_all(&mut out, &chars_of("\n\u{2026}"));
    string_from_chars(&out)
}

proof fn lemma_last_index_in_range(s: Seq<char>, c: char)
    ensures
        last_index_of(s, c) matches Some(j) ==> 0 <= j < s.len(),
    decreases s.len(),
{
    if s.len() > 0 && s.last() != c {
        lemma_last_index_in_range(s.drop_last(), c);
    }
}


// ---------------------------------------------------------------------------
// Notes gathered from several releases
// ---------------------------------------------------------------------------

/// A published release as the GitHub API lists it.
#[derive(Debug, Clone)]
pub struct GithubRelease {
    pub tag_name: String,
    pub body: String,
    pub draft: bool,
    pub prerelease: bool,
}

/// A [`GithubRelease`] with its texts as character sequences.
pub struct GithubReleaseView {
    pub tag_name: Seq<char>,
    pub body: Seq<char>,
    pub draft: bool,
    pub prerelease: bool,
}

impl View for GithubRelease {
    type V = GithubReleaseView;

    open spec fn view(&self) -> GithubReleaseView {
        GithubReleaseView {
            tag_name: self.tag_name@,
            body: self.body@,
            draft: self.draft,
            prerelease: self.prerelease,
        }
    }
}

/// The views of a list of releases.
pub open spec fn release_views(v: Seq<GithubRelease>) -> Seq<GithubReleaseView> {
    v.map_values(|r: GithubRelease| r@)
}

/// `a` is a later version than `b`.
pub open spec fn version_gt(a: Version, b: Version) -> bool {
    a.0 > b.0 || (a.0 == b.0 && (a.1 > b.1 || (a.1 == b.1 && a.2 > b.2)))
}

/// Whether `a` is a later version than `b`.
pub fn version_after(a: Version, b: Version) -> (r: bool)
    ensures
        r == version_gt(a, b),
{
    a.0 > b.0 || (a.0 == b.0 && (a.1 > b.1 || (a.1 == b.1 && a.2 > b.2)))
}

/// The version of a release whose notes belong in an update notice: a
/// published, non-pre-release version later than `current` and not later
/// than `latest` (each bound applying only when it reads as a version).
pub open spec fn noted_version(r: GithubReleaseView, current: Option<Version>, latest: Option<
    Version,
>) -> Option<Version> {
    if r.draft || r.prerelease {
        None
    } else {
        match semver_of(r.tag_name) {
            None => None,
            Some(v) => if (current is Some && !version_gt(v, current->0)) || (latest is Some
                && version_gt(v, latest->0)) {
                None
            } else {
                Some(v)
            },
        }
    }
}

/// The noted releases of `rels`, each with its version and its place in the
/// list, in list order.
pub open spec fn noted_entries(rels: Seq<GithubReleaseView>, current: Option<Version>, latest: Option<
    Version,
>) -> Seq<(Version, usize)>
    decreases rels.len(),
{
    if rels.len() == 0 {
        Seq::empty()
    } else {
        let prev = noted_entries(rels.drop_last(), current, latest);
        match noted_version(rels.last(), current, latest) {
            Some(v) => prev.push((v, (rels.len() - 1) as usize)),
            None => prev,
        }
    }
}

/// Newer versions first; among equal versions, the earlier in the list first.
pub open spec fn newer_first(a: (Version, usize), b: (Version, usize)) -> bool {
    version_gt(a.0, b.0) || (a.0 == b.0 && a.1 <= b.1)
}

/// [`newer_first`] as a relation.
pub open spec fn newer_first_rel() -> spec_fn((Version, usize), (Version, usize)) -> bool {
    |a: (Version, usize), b: (Version, usize)| newer_first(a, b)
}

/// The order in which release notes are listed: the noted releases, newest
/// version first, releases of equal version in list order.
pub open spec fn notes_order(rels: Seq<GithubReleaseView>, current: Option<Version>, latest: Option<
    Version,
>) -> Seq<(Version, usize)> {
    noted_entries(rels, current, latest).sort_by(newer_first_rel())
}

/// The block of text for one release: its version, then its plain notes on
/// the following lines when it has any.
pub open spec fn release_block(v: Version, notes: Seq<char>) -> Seq<char> {
    if notes.len() == 0 {
        version_text(v)
    } else {
        version_text(v) + seq!['\n'] + notes
    }
}

/// The blocks for the entries `order` of the releases `rels`.
pub open spec fn release_blocks(rels: Seq<GithubReleaseView>, order: Seq<(Version, usize)>) -> Seq<
    Seq<char>,
> {
    order.map_values(|e: (Version, usize)| release_block(e.0, plain_notes(rels[e.1 as int].body)))
}

/// The notes of every release after `current` up to `latest`, newest first,
/// separated by blank lines and cut to 1600 characters.
pub open spec fn release_notes_since(rels: Seq<GithubReleaseView>, current: Seq<char>, latest: Seq<
    char,
>) -> Seq<char> {
    let order = notes_order(rels, semver_of(current), semver_of(latest));
    truncated_notes(join_with(release_blocks(rels, order), "\n\n"@), 1600)
}

/// `newer_first` is a total order.
pub proof fn lemma_newer_first_total()
    ensures
        total_ordering(newer_first_rel()),
{
    let leq = newer_first_rel();
    assert(vstd::relations::reflexive(leq));
    assert(vstd::relations::antisymmetric(leq)) by {
        assert forall|a: (Version, usize), b: (Version, usize)| #[trigger] leq(a, b) && #[trigger] leq(
            b,
            a,
        ) implies a == b by {
            assert(a.0 == b.0);
        }
    }
    assert(vstd::relations::transitive(leq));
    assert(vstd::relations::strongly_connected(leq));
}

/// The entries of the noted releases, newest first.
fn order_noted(releases: &[GithubRelease], current: Option<Version>, latest: Option<Version>) -> (r:
    Vec<(Version, usize)>)
    ensures
        r@ == notes_order(release_views(releases@), current, latest),
        forall|k: int| 0 <= k < r@.len() ==> (#[trigger] r@[k]).1 < releases@.len(),
{
    let ghost rels = release_views(releases@);
    let ghost leq = newer_first_rel();
    let mut out: Vec<(Version, usize)> = Vec::new();
    let mut i: usize = 0;
    assert(rels.take(0) =~= Seq::<GithubReleaseView>::empty());
    while i < releases.len()
        invariant
            i <= releases@.len(),
            rels == release_views(releases@),
            leq == newer_first_rel(),
            sorted_by(out@, leq),
            out@.to_multiset() == noted_entries(rels.take(i as int), current, latest).to_multiset(),
            forall|k: int| 0 <= k < out@.len() ==> (#[trigger] out@[k]).1 < i,
        decreases releases@.len() - i,
    {
        let rel = &releases[i];
        let ghost pre = rels.take(i as int);
        assert(rels.take(i + 1).drop_last() =~= pre);
        assert(rels.take(i + 1).last() == rel@);
        let noted = if rel.draft || rel.prerelease {
            None
        } else {
            match parse_semver(rel.tag_name.as_str()) {
                None => None,
                Some(v) => {
                    let too_old = match current {
                        Some(c) => !version_after(v, c),
                        None => false,
                    };
                    let too_new = match latest {
                        Some(l) => version_after(v, l),
                        None => false,
                    };
                    if too_old || too_new {
                        None
                    } else {
                        Some(v)
                    }
                },
            }
        };
        assert(noted == noted_version(rel@, current, latest));
        match noted {
            None => {},
            Some(v) => {
                let x = (v, i);
                let mut p: usize = 0;
                while p < out.len() && !version_after(v, out[p].0)
                    invariant
                        p <= out@.len(),
                        forall|k: int| 0 <= k < p ==> !version_gt(v, (#[trigger] out@[k]).0),
                    decreases out@.len() - p,
                {
                    p = p + 1;
                }
                assert(p < out@.len() ==> version_gt(v, out@[p as int].0));
                let ghost old_out = out@;
                out.insert(p, x);
                proof {
                    broadcast use vstd::seq_lib::group_to_multiset_ensures;

                    old_out.insert_ensures(p as int, x);
                    assert(out@ == old_out.insert(p as int, x));
                    assert forall|a: int, b: int| 0 <= a < b < out@.len() implies #[trigger] leq(
                        out@[a],
                        out@[b],
                    ) by {
                        if b < p {
                            assert(out@[a] == old_out[a] && out@[b] == old_out[b]);
                            assert(leq(old_out[a], old_out[b]));
                        } else if a < p && b == p {
                            assert(out@[a] == old_out[a] && out@[b] == x);
                            assert(!version_gt(v, old_out[a].0));
                            assert(old_out[a].1 < i);
                            assert(newer_first(old_out[a], x));
                        } else if a < p {
                            assert(out@[a] == old_out[a] && out@[b] == old_out[b - 1]);
                            assert(leq(old_out[a], old_out[b - 1]));
                        } else if a == p {
                            assert(out@[a] == x && out@[b] == old_out[b - 1]);
                            assert(version_gt(v, old_out[p as int].0));
                            if b - 1 > p {
                                assert(leq(old_out[p as int], old_out[b - 1]));
                            }
                            assert(newer_first(old_out[p as int], old_out[b - 1]));
                            assert(version_gt(v, old_out[b - 1].0));
                            assert(newer_first(x, old_out[b - 1]));
                        } else {
                            assert(out@[a] == old_out[a - 1] && out@[b] == old_out[b - 1]);
                            assert(leq(old_out[a - 1], old_out[b - 1]));
                        }
                    }
                    assert(noted_entries(rels.take(i + 1), current, latest) == noted_entries(
                        pre,
                        current,
                        latest,
                    ).push(x));
                }
            },
        }
        i = i + 1;
    }
    assert(rels.take(i as int) =~= rels);
    proof {
        lemma_newer_first_total();
        let sel = noted_entries(rels, current, latest);
        sel.lemma_sort_by_ensures(leq);
        vstd::seq_lib::lemma_sorted_unique(out@, sel.sort_by(leq), leq);
    }
    out
}

/// The plain notes of every published release after `current` up to
/// `latest`, newest first, each under its version, separated by blank lines
/// and cut to 1600 characters; see [`release_notes_since`].
pub fn format_release_notes(releases: &[GithubRelease], current: &str, latest: &str) -> (r: String)
    ensures
        r@ == release_notes_since(release_views(releases@), current@, latest@),
{
    let current_ver = parse_semver(current);
    let latest_ver = parse_semver(latest);
    let order = order_noted(releases, current_ver, latest_ver);
    let ghost rels = release_views(releases@);
    let mut blocks: Vec<Vec<char>> = Vec::new();
    let mut k: usize = 0;
    while k < order.len()
        invariant
            k <= order@.len(),
            rels == release_views(releases@),
            forall|j: int| 0 <= j < order@.len() ==> (#[trigger] order@[j]).1 < releases@.len(),
            char_views(blocks@) == release_blocks(rels, order@.take(k as int)),
        decreases order@.len() - k,
    {
        let (v, idx) = order[k];
        let notes = plain_release_notes(releases[idx].body.as_str());
        let mut block = version_chars(v);
        let nv = chars_of(notes.as_str());
        if nv.len() > 0 {
            block.push('\n');
            push_all(&mut block, &nv);
        }
        assert(rels[idx as int] == releases@[idx as int]@);
        assert(block@ == release_block(v, plain_notes(rels[idx as int].body)));
        let ghost before = blocks@;
        blocks.push(block);
        proof {
            assert(order@.take(k + 1) =~= order@.take(k as int).push(order@[k as int]));
            assert(release_blocks(rels, order@.take(k + 1)) =~= release_blocks(
                rels,
                order@.take(k as int),
            ).push(release_block(v, plain_notes(rels[idx as int].body))));
            assert(char_views(blocks@) =~= release_blocks(rels, order@.take(k + 1)));
        }
        k = k + 1;
    }
    assert(order@.take(k as int) =~= order@);
    let sep = chars_of("\n\n");
    let joined = join_chars(&blocks, &sep);
    let text = string_from_chars(&joined);
    truncate_notes(text.as_str(), 1600)
}


// ---------------------------------------------------------------------------
// Update notices
// ---------------------------------------------------------------------------

/// The notes an update notice shows: those gathered from the releases when
/// that gave any text, else the update's own notes made plain, else none.
pub open spec fn notice_notes(gathered: Option<Seq<char>>, body: Option<Seq<char>>) -> Seq<char> {
    match gathered {
        Some(g) if g.len() > 0 => g,
        _ => match body {
            Some(b) => plain_notes(b),
            None => Seq::empty(),
        },
    }
}

/// The notes for an update notice; see [`notice_notes`].
pub fn update_notes(gathered: Option<String>, body: Option<&str>) -> (r: String)
    ensures
        r@ == notice_notes(
            match gathered {
                Some(g) => Some(g@),
                None => None,
            },
            match body {
                Some(b) => Some(b@),
                None => None,
            },
        ),
{
    match gathered {
        Some(g) => {
            if !g.as_str().is_empty() {
                return g;
            }
        },
        None => {},
    }
    match body {
        Some(b) => plain_release_notes(b),
        None => String::new(),
    }
}

/// Whether the update mode asks for updates to be installed without asking.
pub fn installs_silently(mode: &str) -> (b: bool)
    ensures
        b == (mode@ == "silent"@),
{
    crate::text::str_is(mode, &chars_of("silent"))
}

// ---------------------------------------------------------------------------
// Laws
// ---------------------------------------------------------------------------

/// Cut notes never exceed the limit by more than the two characters of the
/// ellipsis line, and notes within the limit are kept whole.
pub proof fn law_truncated_notes_bounded(text: Seq<char>, max: nat)
    ensures
        truncated_notes(text, max).len() <= max + 2,
        text.len() <= max ==> truncated_notes(text, max) == text,
{
    if text.len() > max {
        let cut = text.take(max as int);
        let kept = match last_index_of(cut, '\n') {
            Some(j) => if utf8_len(cut.take(j)) > max / 2 {
                cut.take(j)
            } else {
                cut
            },
            None => cut,
        };
        lemma_last_index_in_range(cut, '\n');
        assert(kept.len() <= max);
        lemma_trim_end_shorter(kept);
        reveal_strlit("\n\u{2026}");
    }
}

proof fn lemma_trim_end_shorter(s: Seq<char>)
    ensures
        trim_end(s).len() <= s.len(),
    decreases s.len(),
{
    if s.len() > 0 && crate::text::is_ws(s.last()) {
        lemma_trim_end_shorter(s.drop_last());
    }
}

proof fn lemma_digits_not_special(s: Seq<char>)
    requires
        crate::text::all_digits(s),
    ensures
        !s.contains('.'),
        s.len() > 0 ==> !crate::text::is_ws(s[0]) && s[0] != 'v' && s[0] != 'V',
        s.len() > 0 ==> !crate::text::is_ws(s.last()),
        leading_digits(s) == s,
    decreases s.len(),
{
    if s.contains('.') {
        let i = choose|i: int| 0 <= i < s.len() && s[i] == '.';
        assert(is_digit(s[i]));
    }
    if s.len() > 0 {
        assert(is_digit(s[0]));
        assert(is_digit(s.last()));
        lemma_digits_not_special(s.drop_first());
        assert(seq![s[0]] + s.drop_first() =~= s);
    }
}

proof fn lemma_split_at_dot(x: Seq<char>, y: Seq<char>)
    requires
        !x.contains('.'),
    ensures
        before_pat(x + seq!['.'] + y, seq!['.']) == x,
        after_pat(x + seq!['.'] + y, seq!['.']) == Some(y),
    decreases x.len(),
{
    let s = x + seq!['.'] + y;
    let dot = seq!['.'];
    if x.len() == 0 {
        assert(s =~= dot + y);
        assert(s.subrange(0, 1) =~= dot);
        assert(s.skip(1) =~= y);
    } else {
        assert(x[0] != '.') by {
            assert(x.contains(x[0]));
        }
        assert(!starts_with(s, dot)) by {
            assert(s.subrange(0, 1)[0] == x[0]);
        }
        let x1 = x.drop_first();
        assert(!x1.contains('.')) by {
            if x1.contains('.') {
                let i = choose|i: int| 0 <= i < x1.len() && x1[i] == '.';
                assert(x[i + 1] == '.');
            }
        }
        lemma_split_at_dot(x1, y);
        assert(s.drop_first() =~= x1 + seq!['.'] + y);
        assert(seq![s[0]] + x1 =~= x);
    }
}

proof fn lemma_no_dot(x: Seq<char>)
    requires
        !x.contains('.'),
    ensures
        before_pat(x, seq!['.']) == x,
        after_pat(x, seq!['.']) is None,
    decreases x.len(),
{
    let dot = seq!['.'];
    if x.len() > 0 {
        assert(x[0] != '.') by {
            assert(x.contains(x[0]));
        }
        assert(!starts_with(x, dot)) by {
            if x.len() >= 1 {
                assert(x.subrange(0, 1)[0] == x[0]);
            }
        }
        let x1 = x.drop_first();
        assert(!x1.contains('.')) by {
            if x1.contains('.') {
                let i = choose|i: int| 0 <= i < x1.len() && x1[i] == '.';
                assert(x[i + 1] == '.');
            }
        }
        lemma_no_dot(x1);
        assert(seq![x[0]] + x1 =~= x);
    }
}

/// A version written as `major.minor.patch` reads back as the same version.
pub proof fn law_version_text_round_trip(v: Version)
    ensures
        semver_of(version_text(v)) == Some(v),
{
    let a = decimal(v.0 as nat);
    let b = decimal(v.1 as nat);
    let c = decimal(v.2 as nat);
    crate::text::lemma_decimal_digits(v.0 as nat);
    crate::text::lemma_decimal_digits(v.1 as nat);
    crate::text::lemma_decimal_digits(v.2 as nat);
    crate::text::lemma_parse_decimal(v.0);
    crate::text::lemma_parse_decimal(v.1);
    crate::text::lemma_parse_decimal(v.2);
    lemma_digits_not_special(a);
    lemma_digits_not_special(b);
    lemma_digits_not_special(c);
    let t = version_text(v);
    let rest = b + seq!['.'] + c;
    assert(t =~= a + seq!['.'] + rest);
    assert(t[0] == a[0]);
    assert(t.last() == c.last());
    assert(crate::text::trim_start(t) == t);
    assert(crate::text::trim_end(t) == t);
    assert(trim_start_v(t) == t);
    lemma_split_at_dot(a, rest);
    lemma_split_at_dot(b, c);
    lemma_no_dot(c);
}


/// A line's bullet and text are decided after trimming: surrounding
/// whitespace, including spaces that indent a `- ` or `* ` list item, does
/// not change the plain line.
pub proof fn law_plain_line_ignores_indent(raw: Seq<char>)
    ensures
        plain_note_line(raw) == plain_note_line(trim(raw)),
{
    crate::config::lemma_trim_idempotent(raw);
}

proof fn lemma_noted_entries_contain(
    rels: Seq<GithubReleaseView>,
    current: Option<Version>,
    latest: Option<Version>,
    i: int,
    v: Version,
)
    requires
        0 <= i < rels.len(),
        i < usize::MAX,
        noted_version(rels[i], current, latest) == Some(v),
    ensures
        noted_entries(rels, current, latest).contains((v, i as usize)),
    decreases rels.len(),
{
    let prev = noted_entries(rels.drop_last(), current, latest);
    if i == rels.len() - 1 {
        let e = prev.push((v, i as usize));
        assert(e[e.len() - 1] == (v, i as usize));
    } else {
        assert(rels.drop_last()[i] == rels[i]);
        lemma_noted_entries_contain(rels.drop_last(), current, latest, i, v);
        let j = choose|j: int| 0 <= j < prev.len() && prev[j] == (v, i as usize);
        match noted_version(rels.last(), current, latest) {
            Some(w) => {
                assert(prev.push((w, (rels.len() - 1) as usize))[j] == (v, i as usize));
            },
            None => {},
        }
    }
}

/// Every published release whose version is later than the current version
/// and not later than the latest one is listed in the update notes,
/// whatever else the list holds. Versions compare number by number: major,
/// then minor, then patch.
pub proof fn law_later_releases_are_listed(
    rels: Seq<GithubReleaseView>,
    current: Seq<char>,
    latest: Seq<char>,
    i: int,
    v: Version,
    c: Version,
)
    requires
        0 <= i < rels.len(),
        i < usize::MAX,
        !rels[i].draft,
        !rels[i].prerelease,
        semver_of(rels[i].tag_name) == Some(v),
        semver_of(current) == Some(c),
        c.0 < v.0 || (c.0 == v.0 && (c.1 < v.1 || (c.1 == v.1 && c.2 < v.2))),
        match semver_of(latest) {
            Some(l) => !(l.0 < v.0 || (l.0 == v.0 && (l.1 < v.1 || (l.1 == v.1 && l.2 < v.2)))),
            None => true,
        },
    ensures
        notes_order(rels, semver_of(current), semver_of(latest)).contains((v, i as usize)),
{
    broadcast use vstd::seq_lib::group_to_multiset_ensures;

    let cur = semver_of(current);
    let lat = semver_of(latest);
    lemma_noted_entries_contain(rels, cur, lat, i, v);
    let e = noted_entries(rels, cur, lat);
    lemma_newer_first_total();
    e.lemma_sort_by_ensures(newer_first_rel());
    assert(e.to_multiset().count((v, i as usize)) > 0);
}

/// A single later release makes up the whole of the notes: its version
/// heading, then its plain notes, cut to length only when the block is
/// longer than 1600 characters; so the notes begin with the heading.
pub proof fn law_one_later_release_heads_the_notes(
    r: GithubReleaseView,
    current: Seq<char>,
    latest: Seq<char>,
    v: Version,
    c: Version,
)
    requires
        !r.draft,
        !r.prerelease,
        semver_of(r.tag_name) == Some(v),
        semver_of(current) == Some(c),
        c.0 < v.0 || (c.0 == v.0 && (c.1 < v.1 || (c.1 == v.1 && c.2 < v.2))),
        match semver_of(latest) {
            Some(l) => !(l.0 < v.0 || (l.0 == v.0 && (l.1 < v.1 || (l.1 == v.1 && l.2 < v.2)))),
            None => true,
        },
    ensures
        ({
            let block = if plain_notes(r.body).len() == 0 {
                version_text(v)
            } else {
                version_text(v) + seq!['\n'] + plain_notes(r.body)
            };
            &&& block.len() <= 1600 ==> release_notes_since(seq![r], current, latest) == block
            &&& block.len() <= 1600 ==> release_notes_since(seq![r], current, latest).take(
                version_text(v).len() as int,
            ) == version_text(v)
        }),
{
    broadcast use vstd::seq_lib::group_to_multiset_ensures;

    let rels = seq![r];
    let cur = semver_of(current);
    let lat = semver_of(latest);
    law_later_releases_are_listed(rels, current, latest, 0, v, c);
    let e = noted_entries(rels, cur, lat);
    assert(rels.drop_last() =~= Seq::<GithubReleaseView>::empty());
    assert(rels.last() == r);
    assert(noted_version(r, cur, lat) == Some(v));
    assert(noted_entries(rels.drop_last(), cur, lat) == Seq::<(Version, usize)>::empty());
    assert(e =~= Seq::<(Version, usize)>::empty().push((v, 0usize)));
    lemma_newer_first_total();
    e.lemma_sort_by_ensures(newer_first_rel());
    let o = notes_order(rels, cur, lat);
    assert(o.len() == 1) by {
        assert(e.to_multiset().len() == o.to_multiset().len());
    }
    let j = choose|j: int| 0 <= j < o.len() && o[j] == (v, 0usize);
    assert(o =~= seq![(v, 0usize)]);
    let blocks = release_blocks(rels, o);
    assert(blocks.len() == 1);
    assert(blocks[0] == release_block(v, plain_notes(r.body)));
    let block = release_block(v, plain_notes(r.body));
    assert(crate::text::join_with(blocks, "\n\n"@) == block);
    if block.len() <= 1600 {
        assert(block.take(version_text(v).len() as int) =~= version_text(v));
    }
}


proof fn lemma_noted_entries_sound(
    rels: Seq<GithubReleaseView>,
    current: Option<Version>,
    latest: Option<Version>,
    x: (Version, usize),
)
    requires
        rels.len() <= usize::MAX,
        noted_entries(rels, current, latest).contains(x),
    ensures
        (x.1 as int) < rels.len(),
        noted_version(rels[x.1 as int], current, latest) == Some(x.0),
    decreases rels.len(),
{
    let prev = noted_entries(rels.drop_last(), current, latest);
    let e = noted_entries(rels, current, latest);
    let j = choose|j: int| 0 <= j < e.len() && e[j] == x;
    match noted_version(rels.last(), current, latest) {
        Some(w) => {
            if j == prev.len() {
                assert(x == (w, (rels.len() - 1) as usize));
            } else {
                assert(prev[j] == x);
                lemma_noted_entries_sound(rels.drop_last(), current, latest, x);
                assert(rels.drop_last()[x.1 as int] == rels[x.1 as int]);
            }
        },
        None => {
            lemma_noted_entries_sound(rels.drop_last(), current, latest, x);
            assert(rels.drop_last()[x.1 as int] == rels[x.1 as int]);
        },
    }
}

/// Only published releases later than the current version and not later
/// than the latest one are listed in the update notes, each under its own
/// version.
pub proof fn law_listed_releases_are_later(
    rels: Seq<GithubReleaseView>,
    current: Seq<char>,
    latest: Seq<char>,
    v: Version,
    i: usize,
)
    requires
        rels.len() <= usize::MAX,
        notes_order(rels, semver_of(current), semver_of(latest)).contains((v, i)),
    ensures
        (i as int) < rels.len(),
        !rels[i as int].draft,
        !rels[i as int].prerelease,
        semver_of(rels[i as int].tag_name) == Some(v),
        match semver_of(current) {
            Some(c) => c.0 < v.0 || (c.0 == v.0 && (c.1 < v.1 || (c.1 == v.1 && c.2 < v.2))),
            None => true,
        },
        match semver_of(latest) {
            Some(l) => !(l.0 < v.0 || (l.0 == v.0 && (l.1 < v.1 || (l.1 == v.1 && l.2 < v.2)))),
            None => true,
        },
{
    broadcast use vstd::seq_lib::group_to_multiset_ensures;

    let cur = semver_of(current);
    let lat = semver_of(latest);
    let e = noted_entries(rels, cur, lat);
    lemma_newer_first_total();
    e.lemma_sort_by_ensures(newer_first_rel());
    assert(e.sort_by(newer_first_rel()).to_multiset().count((v, i)) > 0);
    assert(e.contains((v, i)));
    lemma_noted_entries_sound(rels, cur, lat, (v, i));
}


proof fn lemma_replace_absent(s: Seq<char>, p: Seq<char>, r: Seq<char>)
    requires
        p.len() > 0,
        !s.contains(p[0]),
    ensures
        replace_all(s, p, r) == s,
    decreases s.len(),
{
    if s.len() > 0 {
        assert(s[0] != p[0]);
        assert(!starts_with(s, p)) by {
            if starts_with(s, p) {
                assert(s.subrange(0, p.len() as int)[0] == s[0]);
            }
        }
        assert(!s.drop_first().contains(p[0])) by {
            if s.drop_first().contains(p[0]) {
                let k = choose|k: int| 0 <= k < s.drop_first().len() && s.drop_first()[k] == p[0];
                assert(s[k + 1] == p[0]);
            }
        }
        lemma_replace_absent(s.drop_first(), p, r);
        assert(seq![s[0]] + s.drop_first() =~= s);
    }
}

/// A list item, indented or not, becomes a bullet: a line that reads
/// `- text` or `* text` once trimmed, with no emphasis marks in the text,
/// becomes `• text`.
pub proof fn law_list_items_become_bullets(raw: Seq<char>, w: Seq<char>, mark: char)
    requires
        mark == '-' || mark == '*',
        trim(raw) == seq![mark, ' '] + w,
        !w.contains('*'),
        !w.contains('_'),
    ensures
        plain_note_line(raw) == "\u{2022} "@ + w,
{
    reveal_strlit("**");
    reveal_strlit("__");
    reveal_strlit("- ");
    reveal_strlit("* ");
    let t = trim(raw);
    crate::config::lemma_trim_idempotent(raw);
    assert(trim_start_hashes(t) == t);
    if mark == '-' {
        assert(!t.contains('*')) by {
            if t.contains('*') {
                let k = choose|k: int| 0 <= k < t.len() && t[k] == '*';
                assert(k >= 2);
                assert(w[k - 2] == '*');
            }
        }
    }
    assert(!t.contains('_')) by {
        if t.contains('_') {
            let k = choose|k: int| 0 <= k < t.len() && t[k] == '_';
            assert(k >= 2);
            assert(w[k - 2] == '_');
        }
    }
    let a = replace_all(t, "**"@, Seq::empty());
    if mark == '-' {
        lemma_replace_absent(t, "**"@, Seq::empty());
    } else {
        assert(!starts_with(t, "**"@)) by {
            assert(t[1] == ' ');
            if starts_with(t, "**"@) {
                assert(t.subrange(0, 2)[1] == t[1]);
            }
        }
        assert(!t.drop_first().contains('*')) by {
            if t.drop_first().contains('*') {
                let k = choose|k: int| 0 <= k < t.drop_first().len() && t.drop_first()[k] == '*';
                assert(t[k + 1] == '*');
                assert(k >= 1);
                assert(w[k - 1] == '*');
            }
        }
        lemma_replace_absent(t.drop_first(), "**"@, Seq::empty());
        assert(seq![t[0]] + t.drop_first() =~= t);
    }
    assert(a == t);
    lemma_replace_absent(t, "__"@, Seq::empty());
    assert(t.subrange(0, 2) =~= seq![mark, ' ']);
    assert(t.skip(2) =~= w);
    assert(trim(trim_start_hashes(trim(raw))) == t);
    let u = replace_all(a, "__"@, Seq::empty());
    assert(u == t);
    if mark == '-' {
        assert("- "@ =~= seq!['-', ' ']);
        assert(starts_with(u, "- "@));
    } else {
        assert("* "@ =~= seq!['*', ' ']);
        assert(starts_with(u, "* "@));
    }
}

} // verus!

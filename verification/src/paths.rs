//! Paths read as text, the way the standard library's `std::path` reads
//! them on Unix or on Windows: separators, Windows prefixes (`C:`,
//! `\\server\share`, `\\?\...`, `\\.\...`), components, absoluteness and
//! joining.
use vstd::prelude::*;

use crate::text::{chars_of, same_chars, slice_chars, string_from_chars};

verus! {

/// Which platform's path rules apply.
#[derive(Debug, Clone, Copy, PartialEq, Eq, Structural)]
pub enum PathStyle {
    Unix,
    Windows,
}

/// A separator between components: `/`, and on Windows also `\`.
pub open spec fn is_separator(style: PathStyle, c: char) -> bool {
    c == '/' || (style == PathStyle::Windows && c == '\\')
}

/// Either slash.
pub open spec fn slash(c: char) -> bool {
    c == '/' || c == '\\'
}

/// A separator inside the body of a path: after a verbatim prefix
/// (`\\?\`) only `\` separates.
pub open spec fn body_separator(style: PathStyle, verbatim: bool, c: char) -> bool {
    if verbatim {
        c == '\\'
    } else {
        is_separator(style, c)
    }
}

/// An ASCII letter.
pub open spec fn ascii_alpha(c: char) -> bool {
    (65 <= c as u32 <= 90) || (97 <= c as u32 <= 122)
}

/// `c` with ASCII letters made upper case.
pub open spec fn ascii_upper(c: char) -> char {
    if 97 <= c as u32 <= 122 {
        ((c as u32) - 32) as char
    } else {
        c
    }
}

/// The number of characters before the first separator of `s`.
pub open spec fn run_len(s: Seq<char>, style: PathStyle, verbatim: bool) -> nat
    decreases s.len(),
{
    if s.len() == 0 || body_separator(style, verbatim, s[0]) {
        0
    } else {
        1 + run_len(s.drop_first(), style, verbatim)
    }
}

/// The text before the first separator of `s`, and what follows that
/// separator (nothing when there is none).
pub open spec fn next_component(s: Seq<char>, style: PathStyle, verbatim: bool) -> (
    Seq<char>,
    Seq<char>,
) {
    let k = run_len(s, style, verbatim);
    (s.take(k as int), if k < s.len() {
        s.skip(k as int + 1)
    } else {
        Seq::empty()
    })
}

/// `p` begins with a drive: an ASCII letter and `:`.
pub open spec fn drive_at(p: Seq<char>, i: int) -> bool {
    0 <= i && i + 2 <= p.len() && ascii_alpha(p[i]) && p[i + 1] == ':'
}

/// The kinds of Windows prefix, as `std::path::Prefix` names them.
pub open spec fn verbatim_kind() -> u8 {
    0
}

pub open spec fn verbatim_unc_kind() -> u8 {
    1
}

pub open spec fn verbatim_disk_kind() -> u8 {
    2
}

pub open spec fn device_kind() -> u8 {
    3
}

pub open spec fn unc_kind() -> u8 {
    4
}

pub open spec fn disk_kind() -> u8 {
    5
}

/// The Windows prefix of `p`, as `(kind, first part, second part, length)`:
/// `\\?\UNC\server\share`, `\\?\C:`, `\\?\name`, `\\.\name`,
/// `\\server\share` or `C:` (a drive letter is kept in upper case). Apart
/// from the verbatim forms, either slash may stand where `\` is written.
pub open spec fn windows_prefix(p: Seq<char>) -> Option<(u8, Seq<char>, Seq<char>, nat)> {
    let w = PathStyle::Windows;
    if p.len() >= 2 && slash(p[0]) && slash(p[1]) {
        if p.len() >= 4 && p[0] == '\\' && p[1] == '\\' && p[2] == '?' && p[3] == '\\' {
            if p.len() >= 8 && p[4] == 'U' && p[5] == 'N' && p[6] == 'C' && slash(p[7]) {
                let (server, after) = next_component(p.skip(8), w, true);
                let share = next_component(after, w, true).0;
                Some(
                    (
                        verbatim_unc_kind(),
                        server,
                        share,
                        8 + server.len() + if share.len() > 0 {
                            1 + share.len()
                        } else {
                            0nat
                        },
                    ),
                )
            } else if drive_at(p, 4) && (p.len() == 6 || slash(p[6])) {
                Some((verbatim_disk_kind(), seq![ascii_upper(p[4])], Seq::empty(), 6))
            } else {
                let name = next_component(p.skip(4), w, true).0;
                Some((verbatim_kind(), name, Seq::empty(), 4 + name.len()))
            }
        } else if p.len() >= 4 && p[2] == '.' && slash(p[3]) {
            let name = next_component(p.skip(4), w, false).0;
            Some((device_kind(), name, Seq::empty(), 4 + name.len()))
        } else {
            let (server, after) = next_component(p.skip(2), w, false);
            let share = next_component(after, w, false).0;
            if server.len() > 0 && share.len() > 0 {
                Some((unc_kind(), server, share, 3 + server.len() + share.len()))
            } else {
                None
            }
        }
    } else if drive_at(p, 0) {
        Some((disk_kind(), seq![ascii_upper(p[0])], Seq::empty(), 2))
    } else {
        None
    }
}

/// The prefix of `p` under `style` (Unix paths have none).
pub open spec fn path_prefix(style: PathStyle, p: Seq<char>) -> Option<(u8, Seq<char>, Seq<char>, nat)> {
    if style == PathStyle::Windows {
        windows_prefix(p)
    } else {
        None
    }
}

/// The length of the prefix of `p`.
pub open spec fn prefix_len(style: PathStyle, p: Seq<char>) -> nat {
    match path_prefix(style, p) {
        Some(x) => x.3,
        None => 0,
    }
}

/// `p` starts with a verbatim prefix (`\\?\`).
pub open spec fn is_verbatim(style: PathStyle, p: Seq<char>) -> bool {
    match path_prefix(style, p) {
        Some(x) => x.0 <= 2,
        None => false,
    }
}

/// `p` has a separator right after its prefix.
pub open spec fn has_physical_root(style: PathStyle, p: Seq<char>) -> bool {
    let n = prefix_len(style, p);
    n < p.len() && is_separator(style, p[n as int])
}

/// `p` has a root: a separator after its prefix, or a prefix other than a
/// drive, which roots the path by itself.
pub open spec fn has_root(style: PathStyle, p: Seq<char>) -> bool {
    has_physical_root(style, p) || match path_prefix(style, p) {
        Some(x) => x.0 != disk_kind(),
        None => false,
    }
}

/// `p` is absolute, as `Path::is_absolute` documents it: on Unix when it
/// has a root; on Windows when it has both a prefix and a root (`C:\x` and
/// `\\server\share` are absolute, `C:x` and `\x` are not).
pub open spec fn is_absolute(style: PathStyle, p: Seq<char>) -> bool {
    has_root(style, p) && (style == PathStyle::Unix || path_prefix(style, p) is Some)
}

/// A component of a path, as `std::path::Component` has them; a prefix is
/// compared by its parsed parts.
pub enum PathComponent {
    Prefix(u8, Vec<char>, Vec<char>),
    RootDir,
    CurDir,
    ParentDir,
    Normal(Vec<char>),
}

/// What a [`PathComponent`] holds.
pub enum PathComponentView {
    Prefix(u8, Seq<char>, Seq<char>),
    RootDir,
    CurDir,
    ParentDir,
    Normal(Seq<char>),
}

impl View for PathComponent {
    type V = PathComponentView;

    open spec fn view(&self) -> PathComponentView {
        match self {
            PathComponent::Prefix(k, a, b) => PathComponentView::Prefix(*k, a@, b@),
            PathComponent::RootDir => PathComponentView::RootDir,
            PathComponent::CurDir => PathComponentView::CurDir,
            PathComponent::ParentDir => PathComponentView::ParentDir,
            PathComponent::Normal(n) => PathComponentView::Normal(n@),
        }
    }
}

/// The views of a list of components.
pub open spec fn component_views(v: Seq<PathComponent>) -> Seq<PathComponentView> {
    v.map_values(|c: PathComponent| c@)
}

/// `s` split at every body separator (the pieces between them, at least
/// one).
pub open spec fn split_by(s: Seq<char>, style: PathStyle, verbatim: bool) -> Seq<Seq<char>>
    decreases s.len(),
{
    if s.len() == 0 {
        seq![Seq::empty()]
    } else {
        let r = split_by(s.drop_last(), style, verbatim);
        if body_separator(style, verbatim, s.last()) {
            r.push(Seq::empty())
        } else {
            r.update(r.len() - 1, r.last().push(s.last()))
        }
    }
}

/// The component a piece of the body stands for, if any: an empty piece
/// stands for none, `.` for none (a current-folder component after a
/// verbatim prefix), `..` for the parent folder, any other for a name.
pub open spec fn piece_component(piece: Seq<char>, verbatim: bool) -> Option<PathComponentView> {
    if piece.len() == 0 {
        None
    } else if piece == seq!['.'] {
        if verbatim {
            Some(PathComponentView::CurDir)
        } else {
            None
        }
    } else if piece == seq!['.', '.'] {
        Some(PathComponentView::ParentDir)
    } else {
        Some(PathComponentView::Normal(piece))
    }
}

/// The components the pieces of a body stand for, in order.
pub open spec fn piece_components(pieces: Seq<Seq<char>>, verbatim: bool) -> Seq<PathComponentView>
    decreases pieces.len(),
{
    if pieces.len() == 0 {
        Seq::empty()
    } else {
        let r = piece_components(pieces.drop_last(), verbatim);
        match piece_component(pieces.last(), verbatim) {
            Some(c) => r.push(c),
            None => r,
        }
    }
}

/// The components of `p`, as `Path::components` yields them: the prefix,
/// then the root (a separator after the prefix, or a prefix that roots the
/// path, other than a verbatim one), or `.` at the start of a path with
/// neither; then the pieces of the body.
pub open spec fn path_components(style: PathStyle, p: Seq<char>) -> Seq<PathComponentView> {
    let pre = path_prefix(style, p);
    let verbatim = is_verbatim(style, p);
    let rest = p.skip(prefix_len(style, p) as int);
    let phys = has_physical_root(style, p);
    let head = match pre {
        Some(x) => seq![PathComponentView::Prefix(x.0, x.1, x.2)],
        None => Seq::empty(),
    };
    let rooted = phys || match pre {
        Some(x) => x.0 != disk_kind() && !verbatim,
        None => false,
    };
    let cur = pre is None && !phys && rest.len() > 0 && rest[0] == '.' && (rest.len() == 1
        || body_separator(style, verbatim, rest[1]));
    let start = if rooted {
        seq![PathComponentView::RootDir]
    } else if cur {
        seq![PathComponentView::CurDir]
    } else {
        Seq::empty()
    };
    let body = if phys {
        rest.drop_first()
    } else {
        rest
    };
    head + start + piece_components(split_by(body, style, verbatim), verbatim)
}

/// `p` lies at or under `base`, as `Path::starts_with` decides: the
/// components of `base` are the first components of `p`.
pub open spec fn path_within(style: PathStyle, p: Seq<char>, base: Seq<char>) -> bool {
    let a = path_components(style, p);
    let b = path_components(style, base);
    b.len() <= a.len() && a.take(b.len() as int) == b
}

/// `p` has a `.` or `..` component.
pub open spec fn has_dot_component(style: PathStyle, p: Seq<char>) -> bool {
    exists|i: int|
        0 <= i < path_components(style, p).len() && (#[trigger] path_components(style, p)[i]
            == PathComponentView::CurDir || path_components(style, p)[i]
            == PathComponentView::ParentDir)
}



/// The separator `Path::join` puts between two parts: `/`, or `\` on
/// Windows.
pub open spec fn main_separator(style: PathStyle) -> char {
    if style == PathStyle::Windows {
        '\\'
    } else {
        '/'
    }
}

/// Joining onto `base` needs a separator: `base` does not end in one and
/// is not a bare drive such as `C:`.
pub open spec fn needs_separator(style: PathStyle, base: Seq<char>) -> bool {
    &&& base.len() > 0
    &&& !is_separator(style, base.last())
    &&& !(match path_prefix(style, base) {
        Some(x) => x.0 == disk_kind() && x.3 == base.len(),
        None => false,
    })
}

/// The text of a component when a path is put back together.
pub open spec fn component_text(c: PathComponentView) -> Seq<char> {
    match c {
        PathComponentView::RootDir => seq!['\\'],
        PathComponentView::CurDir => seq!['.'],
        PathComponentView::ParentDir => seq!['.', '.'],
        PathComponentView::Normal(t) => t,
        PathComponentView::Prefix(_, _, _) => Seq::empty(),
    }
}

/// One component of a joined path added onto the components after a
/// verbatim prefix: a root drops what came before, `.` is skipped, and `..`
/// removes a preceding name.
pub open spec fn merge_component(buf: Seq<PathComponentView>, c: PathComponentView) -> Seq<
    PathComponentView,
> {
    match c {
        PathComponentView::RootDir => seq![PathComponentView::RootDir],
        PathComponentView::CurDir => buf,
        PathComponentView::ParentDir => if buf.len() > 0 && buf.last() is Normal {
            buf.drop_last()
        } else {
            buf
        },
        _ => buf.push(c),
    }
}

/// All of `cs` merged onto `buf`, in order.
pub open spec fn merged_components(buf: Seq<PathComponentView>, cs: Seq<PathComponentView>) -> Seq<
    PathComponentView,
>
    decreases cs.len(),
{
    if cs.len() == 0 {
        buf
    } else {
        merge_component(merged_components(buf, cs.drop_last()), cs.last())
    }
}

/// Components after a verbatim prefix written out: each preceded by `\`
/// unless it is the root or follows the root.
pub open spec fn rendered(cs: Seq<PathComponentView>) -> Seq<char>
    decreases cs.len(),
{
    if cs.len() == 0 {
        Seq::empty()
    } else {
        let prev = cs.drop_last();
        let sep = if (prev.len() == 0 || prev.last() != PathComponentView::RootDir) && cs.last()
            != PathComponentView::RootDir {
            seq!['\\']
        } else {
            Seq::empty()
        };
        rendered(prev) + sep + component_text(cs.last())
    }
}

/// `base` with `name` appended, as `Path::join` does it: an absolute `name`
/// or one with a prefix replaces `base`; after a verbatim prefix the path is
/// rebuilt from its components; a `name` with a root keeps only the prefix
/// of `base`; otherwise a separator is put between the two where needed.
pub open spec fn joined_path(style: PathStyle, base: Seq<char>, name: Seq<char>) -> Seq<char> {
    if is_absolute(style, name) || path_prefix(style, name) is Some {
        name
    } else if is_verbatim(style, base) && name.len() > 0 {
        base.take(prefix_len(style, base) as int) + rendered(
            merged_components(
                path_components(style, base).drop_first(),
                path_components(style, name),
            ),
        )
    } else if has_root(style, name) {
        base.take(prefix_len(style, base) as int) + name
    } else if needs_separator(style, base) {
        base + seq![main_separator(style)] + name
    } else {
        base + name
    }
}

// ---------------------------------------------------------------------------
// Executable forms
// ---------------------------------------------------------------------------

fn is_separator_exec(style: PathStyle, c: char) -> (b: bool)
    ensures
        b == is_separator(style, c),
{
    c == '/' || (style == PathStyle::Windows && c == '\\')
}

fn body_separator_exec(style: PathStyle, verbatim: bool, c: char) -> (b: bool)
    ensures
        b == body_separator(style, verbatim, c),
{
    if verbatim {
        c == '\\'
    } else {
        is_separator_exec(style, c)
    }
}

fn is_slash(c: char) -> (b: bool)
    ensures
        b == slash(c),
{
    c == '/' || c == '\\'
}

fn is_ascii_alpha(c: char) -> (b: bool)
    ensures
        b == ascii_alpha(c),
{
    let u = c as u32;
    (65 <= u && u <= 90) || (97 <= u && u <= 122)
}

fn upper(c: char) -> (r: char)
    ensures
        r == ascii_upper(c),
{
    let u = c as u32;
    if 97 <= u && u <= 122 {
        match u {
            97 => 'A',
            98 => 'B',
            99 => 'C',
            100 => 'D',
            101 => 'E',
            102 => 'F',
            103 => 'G',
            104 => 'H',
            105 => 'I',
            106 => 'J',
            107 => 'K',
            108 => 'L',
            109 => 'M',
            110 => 'N',
            111 => 'O',
            112 => 'P',
            113 => 'Q',
            114 => 'R',
            115 => 'S',
            116 => 'T',
            117 => 'U',
            118 => 'V',
            119 => 'W',
            120 => 'X',
            121 => 'Y',
            _ => 'Z',
        }
    } else {
        c
    }
}

proof fn lemma_run_len(s: Seq<char>, k: int, style: PathStyle, verbatim: bool)
    requires
        0 <= k <= s.len(),
        forall|j: int| 0 <= j < k ==> !body_separator(style, verbatim, #[trigger] s[j]),
        k == s.len() || body_separator(style, verbatim, s[k]),
    ensures
        run_len(s, style, verbatim) == k,
    decreases k,
{
    if k > 0 {
        assert(!body_separator(style, verbatim, s[0]));
        let t = s.drop_first();
        assert forall|j: int| 0 <= j < k - 1 implies !body_separator(style, verbatim, #[trigger] t[j]) by {
            assert(t[j] == s[j + 1]);
        }
        if k - 1 < t.len() {
            assert(t[k - 1] == s[k]);
        }
        lemma_run_len(t, k - 1, style, verbatim);
    }
}

/// The index of the first body separator at or after `from`, or the length.
fn sep_from(v: &Vec<char>, from: usize, style: PathStyle, verbatim: bool) -> (k: usize)
    requires
        from <= v@.len(),
    ensures
        from <= k <= v@.len(),
        k - from == run_len(v@.skip(from as int), style, verbatim),
        next_component(v@.skip(from as int), style, verbatim).0 == v@.subrange(from as int, k as int),
        next_component(v@.skip(from as int), style, verbatim).1 == v@.skip(
            if k < v@.len() {
                k + 1
            } else {
                k as int
            },
        ),
{
    let mut k = from;
    while k < v.len() && !body_separator_exec(style, verbatim, v[k])
        invariant
            from <= k <= v@.len(),
            forall|j: int| from <= j < k ==> !body_separator(style, verbatim, #[trigger] v@[j]),
        decreases v@.len() - k,
    {
        k = k + 1;
    }
    let ghost s = v@.skip(from as int);
    proof {
        assert forall|j: int| 0 <= j < k - from implies !body_separator(style, verbatim, #[trigger] s[j]) by {
            assert(s[j] == v@[from + j]);
        }
        if k < v@.len() {
            assert(s[k - from] == v@[k as int]);
        }
        lemma_run_len(s, k - from, style, verbatim);
        assert(s.take(k - from) =~= v@.subrange(from as int, k as int));
        if k < v@.len() {
            assert(s.skip(k - from + 1) =~= v@.skip(k + 1));
        } else {
            assert(v@.skip(k as int) =~= Seq::<char>::empty());
        }
    }
    k
}

/// The Windows prefix of `v`; see [`windows_prefix`].
fn windows_prefix_exec(v: &Vec<char>) -> (r: Option<(u8, Vec<char>, Vec<char>, usize)>)
    ensures
        match (r, windows_prefix(v@)) {
            (None, None) => true,
            (Some((k, a, b, n)), Some((k2, a2, b2, n2))) => k == k2 && a@ == a2 && b@ == b2 && n
                == n2 && n <= v@.len(),
            _ => false,
        },
{
    let len = v.len();
    if len >= 2 && is_slash(v[0]) && is_slash(v[1]) {
        if len >= 4 && v[0] == '\\' && v[1] == '\\' && v[2] == '?' && v[3] == '\\' {
            if len >= 8 && v[4] == 'U' && v[5] == 'N' && v[6] == 'C' && is_slash(v[7]) {
                let k = sep_from(v, 8, PathStyle::Windows, true);
                let server = slice_chars(v, 8, k);
                let after: usize = if k < len {
                    k + 1
                } else {
                    k
                };
                let k2 = sep_from(v, after, PathStyle::Windows, true);
                let share = slice_chars(v, after, k2);
                let n: usize = if share.len() > 0 {
                    9 + server.len() + share.len()
                } else {
                    8 + server.len()
                };
                Some((1, server, share, n))
            } else if len >= 6 && is_ascii_alpha(v[4]) && v[5] == ':' && (len == 6 || is_slash(v[6])) {
                let d = vec![upper(v[4])];
                proof {
                    assert(drive_at(v@, 4));
                    assert(d@ =~= seq![ascii_upper(v@[4])]);
                }
                Some((2, d, Vec::new(), 6))
            } else {
                proof {
                    assert(!drive_at(v@, 4) || !(v@.len() == 6 || slash(v@[6])));
                }
                let k = sep_from(v, 4, PathStyle::Windows, true);
                let name = slice_chars(v, 4, k);
                Some((0, name, Vec::new(), k))
            }
        } else if len >= 4 && v[2] == '.' && is_slash(v[3]) {
            let k = sep_from(v, 4, PathStyle::Windows, false);
            let name = slice_chars(v, 4, k);
            Some((3, name, Vec::new(), k))
        } else {
            let k = sep_from(v, 2, PathStyle::Windows, false);
            let server = slice_chars(v, 2, k);
            let after: usize = if k < len {
                k + 1
            } else {
                k
            };
            let k2 = sep_from(v, after, PathStyle::Windows, false);
            let share = slice_chars(v, after, k2);
            if server.len() > 0 && share.len() > 0 {
                Some((4, server, share, k2))
            } else {
                None
            }
        }
    } else if len >= 2 && is_ascii_alpha(v[0]) && v[1] == ':' {
        let d = vec![upper(v[0])];
        proof {
            assert(d@ =~= seq![ascii_upper(v@[0])]);
        }
        Some((5, d, Vec::new(), 2))
    } else {
        None
    }
}


proof fn lemma_split_by_len(s: Seq<char>, style: PathStyle, verbatim: bool)
    ensures
        split_by(s, style, verbatim).len() >= 1,
    decreases s.len(),
{
    if s.len() > 0 {
        lemma_split_by_len(s.drop_last(), style, verbatim);
    }
}

fn piece_component_exec(piece: Vec<char>, verbatim: bool) -> (r: Option<PathComponent>)
    ensures
        match (r, piece_component(piece@, verbatim)) {
            (None, None) => true,
            (Some(c), Some(d)) => c@ == d,
            _ => false,
        },
{
    if piece.len() == 0 {
        None
    } else if piece.len() == 1 && piece[0] == '.' {
        assert(piece@ =~= seq!['.']);
        if verbatim {
            Some(PathComponent::CurDir)
        } else {
            None
        }
    } else if piece.len() == 2 && piece[0] == '.' && piece[1] == '.' {
        assert(piece@ =~= seq!['.', '.']);
        Some(PathComponent::ParentDir)
    } else {
        assert(piece@ != seq!['.']) by {
            if piece@ == seq!['.'] {
                assert(piece@.len() == 1 && piece@[0] == '.');
            }
        }
        assert(piece@ != seq!['.', '.']) by {
            if piece@ == seq!['.', '.'] {
                assert(piece@.len() == 2 && piece@[0] == '.' && piece@[1] == '.');
            }
        }
        Some(PathComponent::Normal(piece))
    }
}

/// Appends the components of the body `v[from..]` to `out`.
fn push_body_components(
    v: &Vec<char>,
    from: usize,
    style: PathStyle,
    verbatim: bool,
    out: &mut Vec<PathComponent>,
)
    requires
        from <= v@.len(),
    ensures
        component_views(final(out)@) == component_views(old(out)@) + piece_components(
            split_by(v@.skip(from as int), style, verbatim),
            verbatim,
        ),
{
    let ghost base = component_views(out@);
    let mut cur: Vec<char> = Vec::new();
    let mut i: usize = from;
    assert(v@.subrange(from as int, from as int) =~= Seq::<char>::empty());
    assert(component_views(out@) =~= base + Seq::<PathComponentView>::empty());
    while i < v.len()
        invariant
            from <= i <= v@.len(),
            split_by(v@.subrange(from as int, i as int), style, verbatim).len() >= 1,
            component_views(out@) == base + piece_components(
                split_by(v@.subrange(from as int, i as int), style, verbatim).drop_last(),
                verbatim,
            ),
            cur@ == split_by(v@.subrange(from as int, i as int), style, verbatim).last(),
        decreases v@.len() - i,
    {
        let c = v[i];
        let ghost pre = v@.subrange(from as int, i as int);
        let ghost parts = split_by(pre, style, verbatim);
        assert(v@.subrange(from as int, i + 1) =~= pre.push(c));
        assert(v@.subrange(from as int, i + 1).drop_last() =~= pre);
        if body_separator_exec(style, verbatim, c) {
            let ghost oldcur = cur@;
            let ghost before = out@;
            let piece = cur;
            cur = Vec::new();
            match piece_component_exec(piece, verbatim) {
                Some(comp) => {
                    out.push(comp);
                    assert(component_views(out@) =~= component_views(before).push(comp@));
                },
                None => {},
            }
            proof {
                let np = split_by(v@.subrange(from as int, i + 1), style, verbatim);
                assert(np == parts.push(Seq::empty()));
                assert(np.drop_last() =~= parts);
                assert(parts.last() == oldcur);
            }
        } else {
            cur.push(c);
            proof {
                let np = split_by(v@.subrange(from as int, i + 1), style, verbatim);
                assert(np == parts.update(parts.len() - 1, parts.last().push(c)));
                assert(np.drop_last() =~= parts.drop_last());
            }
        }
        proof {
            lemma_split_by_len(v@.subrange(from as int, i + 1), style, verbatim);
        }
        i = i + 1;
    }
    assert(v@.subrange(from as int, i as int) =~= v@.skip(from as int));
    let ghost before = out@;
    match piece_component_exec(cur, verbatim) {
        Some(comp) => {
            out.push(comp);
            assert(component_views(out@) =~= component_views(before).push(comp@));
        },
        None => {},
    }
}

/// The prefix of `v` under `style`; see [`path_prefix`].
fn path_prefix_exec(style: PathStyle, v: &Vec<char>) -> (r: Option<(u8, Vec<char>, Vec<char>, usize)>)
    ensures
        match (r, path_prefix(style, v@)) {
            (None, None) => true,
            (Some((k, a, b, n)), Some((k2, a2, b2, n2))) => k == k2 && a@ == a2 && b@ == b2 && n
                == n2 && n <= v@.len(),
            _ => false,
        },
{
    if style == PathStyle::Windows {
        windows_prefix_exec(v)
    } else {
        None
    }
}

/// The components of `v`; see [`path_components`].
pub fn components_of(style: PathStyle, v: &Vec<char>) -> (r: Vec<PathComponent>)
    ensures
        component_views(r@) == path_components(style, v@),
{
    let pre = path_prefix_exec(style, v);
    let has_prefix = pre.is_some();
    let mut out: Vec<PathComponent> = Vec::new();
    let mut n: usize = 0;
    let mut verbatim = false;
    let mut rooted_by_prefix = false;
    match pre {
        Some((k, a, b, len)) => {
            n = len;
            verbatim = k <= 2;
            rooted_by_prefix = k != 5 && k > 2;
            out.push(PathComponent::Prefix(k, a, b));
        },
        None => {},
    }
    let ghost head = component_views(out@);
    let phys = n < v.len() && is_separator_exec(style, v[n]);
    let ghost rest = v@.skip(n as int);
    if phys || rooted_by_prefix {
        out.push(PathComponent::RootDir);
    } else if !has_prefix && v.len() > 0 && v[0] == '.' && (v.len() == 1
        || body_separator_exec(style, verbatim, v[1])) {
        out.push(PathComponent::CurDir);
    }
    let ghost start = component_views(out@).skip(head.len() as int);
    assert(component_views(out@) =~= head + start);
    let from: usize = if phys {
        n + 1
    } else {
        n
    };
    proof {
        if phys {
            assert(rest.drop_first() =~= v@.skip(from as int));
        } else {
            assert(rest =~= v@.skip(from as int));
        }
        if pre is None {
            assert(rest =~= v@);
        }
    }
    push_body_components(v, from, style, verbatim, &mut out);
    assert(component_views(out@) =~= head + start + piece_components(
        split_by(v@.skip(from as int), style, verbatim),
        verbatim,
    ));
    out
}


fn same_component(a: &PathComponent, b: &PathComponent) -> (r: bool)
    ensures
        r == (a@ == b@),
{
    match (a, b) {
        (PathComponent::Prefix(k, x, y), PathComponent::Prefix(k2, x2, y2)) => *k == *k2 && same_chars(
            x,
            x2,
        ) && same_chars(y, y2),
        (PathComponent::RootDir, PathComponent::RootDir) => true,
        (PathComponent::CurDir, PathComponent::CurDir) => true,
        (PathComponent::ParentDir, PathComponent::ParentDir) => true,
        (PathComponent::Normal(x), PathComponent::Normal(x2)) => same_chars(x, x2),
        _ => false,
    }
}

/// Whether `p` lies at or under `base`; see [`path_within`].
pub fn path_starts_with(style: PathStyle, p: &str, base: &str) -> (b: bool)
    ensures
        b == path_within(style, p@, base@),
{
    let a = components_of(style, &chars_of(p));
    let c = components_of(style, &chars_of(base));
    if c.len() > a.len() {
        return false;
    }
    let ghost av = component_views(a@);
    let ghost cv = component_views(c@);
    let mut k: usize = 0;
    while k < c.len()
        invariant
            k <= c@.len() <= a@.len(),
            av == component_views(a@),
            cv == component_views(c@),
            av == path_components(style, p@),
            cv == path_components(style, base@),
            forall|j: int| 0 <= j < k ==> av[j] == cv[j],
        decreases c@.len() - k,
    {
        if !same_component(&a[k], &c[k]) {
            assert(av.take(cv.len() as int)[k as int] != cv[k as int]);
            return false;
        }
        k = k + 1;
    }
    assert(av.take(cv.len() as int) =~= cv);
    true
}

/// Whether `v` is absolute; see [`is_absolute`].
pub fn is_absolute_path(style: PathStyle, v: &Vec<char>) -> (b: bool)
    ensures
        b == is_absolute(style, v@),
{
    let pre = path_prefix_exec(style, v);
    match pre {
        Some((k, _a, _b, n)) => (n < v.len() && is_separator_exec(style, v[n])) || k != 5,
        None => style == PathStyle::Unix && v.len() > 0 && v[0] == '/',
    }
}

/// Whether `v` has a `.` or `..` component; see [`has_dot_component`].
pub fn has_dot_component_exec(style: PathStyle, v: &Vec<char>) -> (b: bool)
    ensures
        b == has_dot_component(style, v@),
{
    let comps = components_of(style, v);
    let ghost cv = component_views(comps@);
    let mut k: usize = 0;
    while k < comps.len()
        invariant
            k <= comps@.len(),
            cv == component_views(comps@),
            cv == path_components(style, v@),
            forall|j: int| 0 <= j < k ==> cv[j] != PathComponentView::CurDir && cv[j]
                != PathComponentView::ParentDir,
        decreases comps@.len() - k,
    {
        match &comps[k] {
            PathComponent::CurDir => {
                assert(cv[k as int] == PathComponentView::CurDir);
                return true;
            },
            PathComponent::ParentDir => {
                assert(cv[k as int] == PathComponentView::ParentDir);
                return true;
            },
            _ => {},
        }
        k = k + 1;
    }
    false
}


fn copy_component(c: &PathComponent) -> (d: PathComponent)
    ensures
        d@ == c@,
{
    match c {
        PathComponent::Prefix(k, a, b) => {
            let x = slice_chars(a, 0, a.len());
            let y = slice_chars(b, 0, b.len());
            assert(x@ =~= a@);
            assert(y@ =~= b@);
            PathComponent::Prefix(*k, x, y)
        },
        PathComponent::RootDir => PathComponent::RootDir,
        PathComponent::CurDir => PathComponent::CurDir,
        PathComponent::ParentDir => PathComponent::ParentDir,
        PathComponent::Normal(t) => {
            let x = slice_chars(t, 0, t.len());
            assert(x@ =~= t@);
            PathComponent::Normal(x)
        },
    }
}

fn push_chars(out: &mut Vec<char>, more: &Vec<char>)
    ensures
        final(out)@ == old(out)@ + more@,
{
    let ghost start = out@;
    let mut k: usize = 0;
    while k < more.len()
        invariant
            k <= more@.len(),
            out@ == start + more@.take(k as int),
        decreases more@.len() - k,
    {
        out.push(more[k]);
        k = k + 1;
        assert(out@ =~= start + more@.take(k as int));
    }
    assert(more@.take(k as int) =~= more@);
}

/// Rebuilds a verbatim `base` joined with `name`.
fn rebuilt_join(style: PathStyle, b: &Vec<char>, n: &Vec<char>, plen: usize) -> (r: Vec<char>)
    requires
        plen == prefix_len(style, b@),
        plen <= b@.len(),
        path_components(style, b@).len() > 0,
    ensures
        r@ == b@.take(plen as int) + rendered(
            merged_components(path_components(style, b@).drop_first(), path_components(style, n@)),
        ),
{
    let mut all = components_of(style, b);
    let _prefix = all.remove(0);
    let ghost bc = path_components(style, b@).drop_first();
    assert(component_views(all@) =~= bc);
    let mut buf = all;
    let nc = components_of(style, n);
    let ghost ncv = component_views(nc@);
    let mut i: usize = 0;
    assert(ncv.take(0) =~= Seq::<PathComponentView>::empty());
    while i < nc.len()
        invariant
            i <= nc@.len(),
            ncv == component_views(nc@),
            component_views(buf@) == merged_components(bc, ncv.take(i as int)),
        decreases nc@.len() - i,
    {
        let ghost before = component_views(buf@);
        assert(ncv.take(i + 1).drop_last() =~= ncv.take(i as int));
        assert(ncv.take(i + 1).last() == ncv[i as int]);
        match &nc[i] {
            PathComponent::RootDir => {
                buf = vec![PathComponent::RootDir];
                assert(component_views(buf@) =~= seq![PathComponentView::RootDir]);
            },
            PathComponent::CurDir => {},
            PathComponent::ParentDir => {
                let l = buf.len();
                if l > 0 {
                    let last_named = match &buf[l - 1] {
                        PathComponent::Normal(_) => true,
                        _ => false,
                    };
                    if last_named {
                        buf.pop();
                        assert(component_views(buf@) =~= before.drop_last());
                    }
                }
            },
            c => {
                buf.push(copy_component(c));
                assert(component_views(buf@) =~= before.push(ncv[i as int]));
            },
        }
        i = i + 1;
    }
    assert(ncv.take(i as int) =~= ncv);
    let ghost cs = component_views(buf@);
    let mut out = slice_chars(b, 0, plen);
    let ghost head = out@;
    assert(b@.subrange(0, plen as int) =~= b@.take(plen as int));
    let mut need = true;
    let mut k: usize = 0;
    assert(cs.take(0) =~= Seq::<PathComponentView>::empty());
    while k < buf.len()
        invariant
            k <= buf@.len(),
            cs == component_views(buf@),
            out@ == head + rendered(cs.take(k as int)),
            need == (k == 0 || cs[k - 1] != PathComponentView::RootDir),
        decreases buf@.len() - k,
    {
        let ghost prev_out = out@;
        assert(cs.take(k + 1).drop_last() =~= cs.take(k as int));
        assert(cs.take(k + 1).last() == cs[k as int]);
        let is_root = match &buf[k] {
            PathComponent::RootDir => true,
            _ => false,
        };
        if need && !is_root {
            out.push('\\');
        }
        let ghost mid = out@;
        match &buf[k] {
            PathComponent::RootDir => out.push('\\'),
            PathComponent::CurDir => out.push('.'),
            PathComponent::ParentDir => {
                out.push('.');
                out.push('.');
            },
            PathComponent::Normal(t) => push_chars(&mut out, t),
            PathComponent::Prefix(_, _, _) => {},
        }
        proof {
            let c = cs[k as int];
            assert(out@ =~= mid + component_text(c));
            if need && !is_root {
                assert(mid =~= prev_out + seq!['\\']);
            } else {
                assert(mid =~= prev_out + Seq::<char>::empty());
            }
            assert(out@ =~= head + rendered(cs.take(k + 1)));
        }
        need = !is_root;
        k = k + 1;
    }
    assert(cs.take(k as int) =~= cs);
    out
}

/// `base` joined with `name`; see [`joined_path`].
pub fn join_path(style: PathStyle, base: &str, name: &str) -> (s: String)
    ensures
        s@ == joined_path(style, base@, name@),
{
    let b = chars_of(base);
    let n = chars_of(name);
    let npre = path_prefix_exec(style, &n);
    if is_absolute_path(style, &n) || npre.is_some() {
        return string_from_chars(&n);
    }
    let bpre = path_prefix_exec(style, &b);
    let (plen, verbatim, bare_drive) = match bpre {
        Some((k, _x, _y, len)) => (len, k <= 2, k == 5 && len == b.len()),
        None => (0, false, false),
    };
    if verbatim && n.len() > 0 {
        proof {
            assert(path_components(style, b@).len() > 0);
        }
        let r = rebuilt_join(style, &b, &n, plen);
        return string_from_chars(&r);
    }
    if n.len() > 0 && is_separator_exec(style, n[0]) {
        let mut out = slice_chars(&b, 0, plen);
        assert(b@.subrange(0, plen as int) =~= b@.take(plen as int));
        push_chars(&mut out, &n);
        return string_from_chars(&out);
    }
    let mut out = b;
    if out.len() > 0 && !is_separator_exec(style, out[out.len() - 1]) && !bare_drive {
        if style == PathStyle::Windows {
            out.push('\\');
        } else {
            out.push('/');
        }
    }
    push_chars(&mut out, &n);
    string_from_chars(&out)
}

} // verus!

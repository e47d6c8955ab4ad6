//! Joining a directory and a file name.

use vstd::prelude::*;

verus! {

/// A single plain path component: not empty, no separator, no drive colon,
/// and not `.` or `..`.
pub open spec fn plain_component(name: Seq<char>) -> bool {
    &&& name.len() > 0
    &&& forall|i: int| 0 <= i < name.len() ==> #[trigger] name[i] != '/' && name[i] != '\\' && name[i] != ':'
    &&& name != seq!['.']
    &&& name != seq!['.', '.']
}

pub open spec fn ends_with(s: Seq<char>, suffix: Seq<char>) -> bool {
    s.len() >= suffix.len() && s.subrange(s.len() - suffix.len(), s.len() as int) == suffix
}

/// A path separator on one platform or another: `/` everywhere, `\\` on
/// Windows.
pub open spec fn is_separator(c: char) -> bool {
    c == '/' || c == '\\'
}

/// A bare Windows drive prefix such as `C:`, which a component joins with
/// no separator there.
pub open spec fn bare_drive(s: Seq<char>) -> bool {
    s.len() == 2 && s[1] == ':'
}

/// `r` is `base` extended by the component `name`, as `Path::join` does it:
/// with nothing in between when `base` is empty or ends in `/`, a separator
/// of everywhere; on Windows also after a `\\` or a bare drive, which
/// elsewhere get a `/`; and after one separator, `/` or `\\` as the
/// platform has it, in every other case.
pub open spec fn joined(base: Seq<char>, name: Seq<char>, r: Seq<char>) -> bool {
    if base.len() == 0 || base.last() == '/' {
        r == base + name
    } else if base.last() == '\\' || bare_drive(base) {
        r == base + name || r == base + seq!['/'] + name
    } else {
        exists|sep: char| is_separator(sep) && r == base + seq![sep] + name
    }
}

/// A Windows verbatim path (`\\?\...`), which `PathBuf::push` normalizes
/// rather than extends.
pub open spec fn verbatim(s: Seq<char>) -> bool {
    s.len() >= 4 && s.subrange(0, 4) == seq!['\\', '\\', '?', '\\']
}

/// Calls `std::path::Path::join`, which pushes a relative component onto the
/// path: the base is kept as it is and the component follows it, after the
/// platform's separator where the base does not already end in one. A plain
/// component is relative everywhere (no root, no drive prefix), so nothing
/// of the base is replaced. A verbatim base is normalized instead, which
/// the documentation leaves open beyond the component coming last; and
/// which separator goes in is the platform's, so it is not fixed here.
#[verifier::external_body]
pub(crate) fn join_path(base: &str, name: &str) -> (r: String)
    requires
        plain_component(name@),
    ensures
        !verbatim(base@) ==> joined(base@, name@, r@),
        ends_with(r@, name@),
{
    std::path::Path::new(base).join(name).to_string_lossy().into_owned()
}

/// A base every platform extends after one separator: not empty, not
/// starting with `\\` (so neither verbatim nor a UNC share), not ending in
/// a separator, and not a bare drive.
pub open spec fn plain_base(s: Seq<char>) -> bool {
    s.len() > 0 && s[0] != '\\' && !is_separator(s.last()) && !bare_drive(s)
}

/// Joining twice onto a plain base puts one separator before each
/// component.
pub proof fn lemma_joined_twice(base: Seq<char>, mid: Seq<char>, name: Seq<char>, dir: Seq<char>, r: Seq<char>)
    requires
        plain_base(base),
        plain_component(mid),
        joined(base, mid, dir),
        !verbatim(dir) ==> joined(dir, name, r),
    ensures
        exists|s1: char, s2: char|
            is_separator(s1) && is_separator(s2) && r == base + seq![s1] + mid + seq![s2] + name,
{
    let s1 = choose|sep: char| is_separator(sep) && dir == base + seq![sep] + mid;
    assert(dir[0] == base[0]);
    assert(dir.last() == mid.last());
    assert(!verbatim(dir));
    assert(!bare_drive(dir));
    let s2 = choose|sep: char| is_separator(sep) && r == dir + seq![sep] + name;
    assert(r =~= base + seq![s1] + mid + seq![s2] + name);
}

} // verus!

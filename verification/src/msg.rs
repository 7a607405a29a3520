//! Classification of one trimmed line of driver output into a diagnostic
//! message: a missing-file error (carrying the package identifier), a generic
//! error line, or an informational line.

use vstd::prelude::*;

verus! {

/// One classified line of driver output.
pub enum Msg {
    UnknownInfo(String),
    UnknownError(String),
    NeedInstall(String),
    Empty,
}

/// Mathematical model of a classified line: the same taxonomy over `Seq<char>`.
pub enum MsgModel {
    UnknownInfo(Seq<char>),
    UnknownError(Seq<char>),
    NeedInstall(Seq<char>),
    Empty,
}

impl View for Msg {
    type V = MsgModel;

    open spec fn view(&self) -> MsgModel {
        match self {
            Msg::UnknownInfo(t) => MsgModel::UnknownInfo(t@),
            Msg::UnknownError(t) => MsgModel::UnknownError(t@),
            Msg::NeedInstall(t) => MsgModel::NeedInstall(t@),
            Msg::Empty => MsgModel::Empty,
        }
    }
}

impl DeepView for Msg {
    type V = MsgModel;

    open spec fn deep_view(&self) -> MsgModel {
        self.view()
    }
}

/// The fixed text that opens a missing-file diagnostic, up to and including
/// the opening backtick.
pub open spec fn missing_file_prefix() -> Seq<char> {
    "! LaTeX Error: File `"@
}

/// The fixed text that closes a missing-file diagnostic, from the closing
/// quote on.
pub open spec fn missing_file_suffix() -> Seq<char> {
    "' not found."@
}

/// A line reports a missing file exactly when it is the fixed prefix, then a
/// (possibly empty) file name, then the fixed suffix.
pub open spec fn is_missing_file_line(s: Seq<char>) -> bool {
    &&& s.len() >= missing_file_prefix().len() + missing_file_suffix().len()
    &&& s.subrange(0, missing_file_prefix().len() as int) == missing_file_prefix()
    &&& s.subrange(s.len() - missing_file_suffix().len(), s.len() as int)
        == missing_file_suffix()
}

/// The file name quoted inside a missing-file line.
pub open spec fn missing_file_name(s: Seq<char>) -> Seq<char> {
    s.subrange(
        missing_file_prefix().len() as int,
        s.len() - missing_file_suffix().len(),
    )
}

/// Index of the first occurrence of `c` in `s`, or `s.len()` when there is
/// none.
pub open spec fn first_index_of(s: Seq<char>, c: char) -> int
    decreases s.len(),
{
    if s.len() == 0 {
        0
    } else if s[0] == c {
        0
    } else {
        1 + first_index_of(s.subrange(1, s.len() as int), c)
    }
}

/// The package identifier carried by a quoted file name: the portion before
/// its first `.`, or the whole name when it has none.
pub open spec fn package_of(name: Seq<char>) -> Seq<char> {
    name.subrange(0, first_index_of(name, '.'))
}

/// The classification of one trimmed line, by precedence: missing-file lines
/// yield `NeedInstall` with the extracted package identifier; other lines
/// opening with `!` yield `UnknownError`; everything else, the empty line
/// included, yields `UnknownInfo`. Text is preserved verbatim.
pub open spec fn classify(s: Seq<char>) -> MsgModel {
    if is_missing_file_line(s) {
        MsgModel::NeedInstall(package_of(missing_file_name(s)))
    } else if s.len() > 0 && s[0] == '!' {
        MsgModel::UnknownError(s)
    } else {
        MsgModel::UnknownInfo(s)
    }
}

/// The text a message carries; empty for `Empty`.
pub open spec fn text_of(m: MsgModel) -> Seq<char> {
    match m {
        MsgModel::UnknownInfo(t) => t,
        MsgModel::UnknownError(t) => t,
        MsgModel::NeedInstall(t) => t,
        MsgModel::Empty => Seq::empty(),
    }
}

/// `first_index_of` is a position in `s` (one past the end when `c` does not
/// occur), everything before it differs from `c`, and it lands on `c` when
/// inside.
pub proof fn lemma_first_index_of(s: Seq<char>, c: char)
    ensures
        0 <= first_index_of(s, c) <= s.len(),
        forall|j: int| 0 <= j < first_index_of(s, c) ==> s[j] != c,
        first_index_of(s, c) < s.len() ==> s[first_index_of(s, c)] == c,
    decreases s.len(),
{
    if s.len() == 0 {
    } else if s[0] == c {
    } else {
        let tail = s.subrange(1, s.len() as int);
        lemma_first_index_of(tail, c);
        assert forall|j: int| 0 <= j < first_index_of(s, c) implies s[j] != c by {
            if j > 0 {
                assert(s[j] == tail[j - 1]);
            }
        }
        if first_index_of(s, c) < s.len() {
            assert(s[first_index_of(s, c)] == tail[first_index_of(tail, c)]);
        }
    }
}

/// Whether `p` is an initial segment of `s`.
fn has_prefix(s: &str, p: &str) -> (r: bool)
    ensures
        r == (s@.len() >= p@.len() && s@.subrange(0, p@.len() as int) == p@),
{
    let n = s.unicode_len();
    let np = p.unicode_len();
    if n < np {
        return false;
    }
    let mut i: usize = 0;
    while i < np
        invariant
            0 <= i <= np,
            np == p@.len(),
            n == s@.len(),
            np <= n,
            forall|j: int| 0 <= j < i ==> s@[j] == p@[j],
        decreases np - i,
    {
        if s.get_char(i) != p.get_char(i) {
            assert(s@.subrange(0, p@.len() as int)[i as int] != p@[i as int]);
            return false;
        }
        i += 1;
    }
    assert(s@.subrange(0, p@.len() as int) =~= p@);
    true
}

/// Whether `p` is a final segment of `s`.
pub(crate) fn has_suffix(s: &str, p: &str) -> (r: bool)
    ensures
        r == (s@.len() >= p@.len()
            && s@.subrange(s@.len() - p@.len(), s@.len() as int) == p@),
{
    let n = s.unicode_len();
    let np = p.unicode_len();
    if n < np {
        return false;
    }
    let base = n - np;
    let mut i: usize = 0;
    while i < np
        invariant
            0 <= i <= np,
            np == p@.len(),
            n == s@.len(),
            np <= n,
            base == n - np,
            forall|j: int| 0 <= j < i ==> s@[base + j] == p@[j],
        decreases np - i,
    {
        if s.get_char(base + i) != p.get_char(i) {
            assert(s@.subrange(s@.len() - p@.len(), s@.len() as int)[i as int]
                != p@[i as int]);
            return false;
        }
        i += 1;
    }
    assert(s@.subrange(s@.len() - p@.len(), s@.len() as int) =~= p@);
    true
}

/// The portion of `name` before its first `.`, or all of it when it has none.
fn before_first_dot(name: &str) -> (r: String)
    ensures
        r@ == package_of(name@),
{
    let n = name.unicode_len();
    let mut i: usize = 0;
    while i < n
        invariant
            0 <= i <= n,
            n == name@.len(),
            forall|j: int| 0 <= j < i ==> name@[j] != '.',
        decreases n - i,
    {
        if name.get_char(i) == '.' {
            proof {
                lemma_first_index_of(name@, '.');
                assert(first_index_of(name@, '.') == i);
            }
            return String::from_str(name.substring_char(0, i));
        }
        i += 1;
    }
    proof {
        lemma_first_index_of(name@, '.');
        assert(first_index_of(name@, '.') == n);
        assert(package_of(name@) =~= name@);
    }
    String::from_str(name)
}

impl Msg {
    /// Classify one trimmed line of driver output. Total: every string yields
    /// exactly one variant, with the text preserved verbatim.
    pub fn new(s: String) -> (m: Msg)
        ensures
            m@ == classify(s@),
    {
        let pre: &str = "! LaTeX Error: File `";
        let suf: &str = "' not found.";
        proof {
            reveal_strlit("! LaTeX Error: File `");
            reveal_strlit("' not found.");
        }
        let n = s.as_str().unicode_len();
        if n >= 33 && has_prefix(s.as_str(), pre) && has_suffix(s.as_str(), suf) {
            let name = s.as_str().substring_char(21, n - 12);
            let pkg = before_first_dot(name);
            return Msg::NeedInstall(pkg);
        }
        if n >= 1 && s.as_str().get_char(0) == '!' {
            Msg::UnknownError(s)
        } else {
            Msg::UnknownInfo(s)
        }
    }

    /// The text this message carries, verbatim; empty for `Empty`.
    pub fn as_str(&self) -> (r: &str)
        ensures
            r@ == text_of(self@),
    {
        match self {
            Msg::UnknownError(e) => e.as_str(),
            Msg::NeedInstall(e) => e.as_str(),
            Msg::Empty => {
                let r: &str = "";
                proof {
                    reveal_strlit("");
                    assert(r@ =~= Seq::<char>::empty());
                }
                r
            },
            Msg::UnknownInfo(i) => i.as_str(),
        }
    }
}

} // verus!

//! Migration records, the desired target, and the order on version strings.
use vstd::prelude::*;
use vstd::string::StrSliceExecFns;

verus! {

/// Lexicographic order on character sequences, comparing characters by code
/// point; a proper prefix comes first.
pub open spec fn text_lt(a: Seq<char>, b: Seq<char>) -> bool
    decreases a.len(),
{
    if a.len() == 0 {
        b.len() > 0
    } else if b.len() == 0 {
        false
    } else if a[0] != b[0] {
        (a[0] as int) < (b[0] as int)
    } else {
        text_lt(a.drop_first(), b.drop_first())
    }
}

/// `a` comes no later than `b`.
pub open spec fn text_le(a: Seq<char>, b: Seq<char>) -> bool {
    !text_lt(b, a)
}

pub proof fn lemma_text_lt_irreflexive(a: Seq<char>)
    ensures
        !text_lt(a, a),
    decreases a.len(),
{
    if a.len() > 0 {
        lemma_text_lt_irreflexive(a.drop_first());
    }
}

pub proof fn lemma_text_lt_asymmetric(a: Seq<char>, b: Seq<char>)
    ensures
        !(text_lt(a, b) && text_lt(b, a)),
    decreases a.len(),
{
    if a.len() > 0 && b.len() > 0 && a[0] == b[0] {
        lemma_text_lt_asymmetric(a.drop_first(), b.drop_first());
    }
}

/// Two different sequences are ordered one way or the other.
pub proof fn lemma_text_lt_total(a: Seq<char>, b: Seq<char>)
    ensures
        a != b ==> text_lt(a, b) || text_lt(b, a),
    decreases a.len(),
{
    if a.len() > 0 && b.len() > 0 && a[0] == b[0] {
        lemma_text_lt_total(a.drop_first(), b.drop_first());
        if a.drop_first() == b.drop_first() {
            assert(a =~= seq![a[0]] + a.drop_first());
            assert(b =~= seq![b[0]] + b.drop_first());
        }
    } else if a.len() > 0 && b.len() > 0 {
        assert(a[0] as int != b[0] as int);
    } else if a.len() == 0 && b.len() == 0 {
        assert(a =~= b);
    }
}

pub proof fn lemma_text_lt_transitive(a: Seq<char>, b: Seq<char>, c: Seq<char>)
    requires
        text_lt(a, b),
        text_lt(b, c),
    ensures
        text_lt(a, c),
    decreases a.len(),
{
    if a.len() > 0 && b.len() > 0 && c.len() > 0 && a[0] == b[0] && b[0] == c[0] {
        lemma_text_lt_transitive(a.drop_first(), b.drop_first(), c.drop_first());
    }
}

pub proof fn lemma_text_le_transitive(a: Seq<char>, b: Seq<char>, c: Seq<char>)
    requires
        text_le(a, b),
        text_le(b, c),
    ensures
        text_le(a, c),
{
    if text_lt(c, a) {
        lemma_text_lt_total(b, c);
        if b != c {
            lemma_text_lt_transitive(b, c, a);
        }
    }
}

/// Whether `a` comes strictly before `b`, comparing characters by code point.
pub fn text_less(a: &str, b: &str) -> (r: bool)
    ensures
        r == text_lt(a@, b@),
{
    let la = a.unicode_len();
    let lb = b.unicode_len();
    let mut i: usize = 0;
    assert(a@.skip(0) =~= a@);
    assert(b@.skip(0) =~= b@);
    while i < la && i < lb
        invariant
            la == a@.len(),
            lb == b@.len(),
            i <= la,
            i <= lb,
            text_lt(a@, b@) == text_lt(a@.skip(i as int), b@.skip(i as int)),
        decreases la - i,
    {
        let ca = a.get_char(i);
        let cb = b.get_char(i);
        if ca != cb {
            return (ca as u32) < (cb as u32);
        }
        assert(a@.skip(i as int).drop_first() =~= a@.skip(i + 1));
        assert(b@.skip(i as int).drop_first() =~= b@.skip(i + 1));
        i = i + 1;
    }
    i == la && i < lb
}

/// What the logic reads of a migration record.
pub struct VersionView {
    pub path: Seq<char>,
    pub name: Seq<char>,
    pub hash: Seq<char>,
    pub version: Seq<char>,
}

/// One migration script found on disk: where it is, its name and version as
/// read from the file name, and the hex digest of its contents.
#[derive(Debug)]
pub struct Version {
    pub path: String,
    pub name: String,
    pub hash: String,
    pub version: String,
}

impl View for Version {
    type V = VersionView;

    open spec fn view(&self) -> VersionView {
        VersionView {
            path: self.path@,
            name: self.name@,
            hash: self.hash@,
            version: self.version@,
        }
    }
}

/// The views of a sequence of records.
pub open spec fn catalog_view(s: Seq<Version>) -> Seq<VersionView> {
    s.map_values(|v: Version| v@)
}

impl Clone for Version {
    fn clone(&self) -> (r: Self)
        ensures
            r == *self,
    {
        Version {
            path: self.path.clone(),
            name: self.name.clone(),
            hash: self.hash.clone(),
            version: self.version.clone(),
        }
    }
}

/// Two records are equal when version and content hash agree.
impl PartialEq for Version {
    fn eq(&self, other: &Version) -> (r: bool) {
        self.hash == other.hash && self.version == other.version
    }
}

impl vstd::std_specs::cmp::PartialEqSpecImpl for Version {
    open spec fn obeys_eq_spec() -> bool {
        true
    }

    open spec fn eq_spec(&self, other: &Version) -> bool {
        self.hash@ == other.hash@ && self.version@ == other.version@
    }
}

impl Eq for Version {}

/// The schema level a run should reach.
#[derive(Debug)]
pub enum DesiredVersion {
    Latest,
    Specific(String),
}

/// The highest version a target allows, if it sets one.
pub open spec fn ceiling(d: DesiredVersion) -> Option<Seq<char>> {
    match d {
        DesiredVersion::Latest => None,
        DesiredVersion::Specific(s) => Some(s@),
    }
}

impl Clone for DesiredVersion {
    fn clone(&self) -> (r: Self)
        ensures
            r == *self,
    {
        match self {
            DesiredVersion::Latest => DesiredVersion::Latest,
            DesiredVersion::Specific(s) => DesiredVersion::Specific(s.clone()),
        }
    }
}

} // verus!

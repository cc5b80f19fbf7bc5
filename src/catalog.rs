//! The catalog of migration scripts: which files are scripts, what their
//! names say, what their contents hash to, and in what order they run.
use vstd::prelude::*;
use vstd::string::{StrSliceExecFns, StringExecFns};
use crate::error::ScurryError;
use crate::history::strictly_sorted;
use crate::versions::{
    catalog_view, lemma_text_lt_asymmetric, lemma_text_lt_irreflexive, lemma_text_lt_total,
    lemma_text_le_transitive, lemma_text_lt_transitive, text_le, text_less, text_lt, Version,
    VersionView,
};

verus! {

/// Index of the last `'.'` among the first `i` characters of `s`, or -1.
pub open spec fn last_dot_before(s: Seq<char>, i: int) -> int
    decreases i,
{
    if i <= 0 {
        -1
    } else if s[i - 1] == '.' {
        i - 1
    } else {
        last_dot_before(s, i - 1)
    }
}

/// Index of the last `'.'` in `s`, or -1.
pub open spec fn last_dot(s: Seq<char>) -> int {
    last_dot_before(s, s.len() as int)
}

/// The stem of a file name: all of it when it has no `'.'` past its first
/// character, else what comes before the last `'.'`.
pub open spec fn stem_of(name: Seq<char>) -> Seq<char> {
    if last_dot(name) <= 0 {
        name
    } else {
        name.take(last_dot(name))
    }
}

/// The extension of a file name: none when it has no `'.'` past its first
/// character, else what follows the last `'.'`.
pub open spec fn extension_of(name: Seq<char>) -> Option<Seq<char>> {
    if last_dot(name) <= 0 {
        None
    } else {
        Some(name.skip(last_dot(name) + 1))
    }
}

/// A `"__"` starts at index `i` of `s`.
pub open spec fn sep_at(s: Seq<char>, i: int) -> bool {
    0 <= i && i + 1 < s.len() && s[i] == '_' && s[i + 1] == '_'
}

/// Index of the first `"__"` at index `i` or later in `s`, or -1.
pub open spec fn first_sep_from(s: Seq<char>, i: int) -> int
    decreases s.len() - i,
{
    if i < 0 || i + 1 >= s.len() {
        -1
    } else if sep_at(s, i) {
        i
    } else {
        first_sep_from(s, i + 1)
    }
}

/// Index of the first `"__"` in `s`, or -1.
pub open spec fn first_sep(s: Seq<char>) -> int {
    first_sep_from(s, 0)
}

/// The version part of a stem: what precedes its first `"__"`.
pub open spec fn version_part(stem: Seq<char>) -> Seq<char> {
    stem.take(first_sep(stem))
}

/// The name part of a stem: all that follows its first `"__"`.
pub open spec fn name_part(stem: Seq<char>) -> Seq<char> {
    stem.skip(first_sep(stem) + 2)
}

proof fn lemma_last_dot_range(s: Seq<char>, i: int)
    requires
        0 <= i <= s.len(),
    ensures
        -1 <= last_dot_before(s, i) < i,
        last_dot_before(s, i) >= 0 ==> s[last_dot_before(s, i)] == '.',
    decreases i,
{
    if i > 0 {
        lemma_last_dot_range(s, i - 1);
    }
}

proof fn lemma_first_sep_range(s: Seq<char>, i: int)
    ensures
        first_sep_from(s, i) == -1 || (i <= first_sep_from(s, i) && sep_at(
            s,
            first_sep_from(s, i),
        )),
    decreases s.len() - i,
{
    if !(i < 0 || i + 1 >= s.len()) && !sep_at(s, i) {
        lemma_first_sep_range(s, i + 1);
    }
}

/// Index of the last `'.'` in `s`, if there is one.
fn find_last_dot(s: &str) -> (r: Option<usize>)
    ensures
        match r {
            None => last_dot(s@) == -1,
            Some(i) => last_dot(s@) == i as int,
        },
{
    proof {
        lemma_last_dot_range(s@, s@.len() as int);
    }
    let mut i: usize = s.unicode_len();
    while i > 0
        invariant
            i <= s@.len(),
            last_dot(s@) == last_dot_before(s@, i as int),
        decreases i,
    {
        if s.get_char(i - 1) == '.' {
            return Some(i - 1);
        }
        i = i - 1;
    }
    None
}

/// The stem of a file name, as `Path::file_stem` reads it.
pub fn file_stem(file_name: &str) -> (r: String)
    ensures
        r@ == stem_of(file_name@),
{
    match find_last_dot(file_name) {
        Some(i) if i > 0 => {
            proof {
                lemma_last_dot_range(file_name@, file_name@.len() as int);
            }
            file_name.substring_char(0, i).to_owned()
        },
        _ => file_name.to_owned(),
    }
}

/// The extension of a file name, as `Path::extension` reads it.
pub fn file_extension(file_name: &str) -> (r: Option<String>)
    ensures
        match r {
            None => extension_of(file_name@) is None,
            Some(e) => extension_of(file_name@) == Some(e@),
        },
{
    match find_last_dot(file_name) {
        Some(i) if i > 0 => {
            proof {
                lemma_last_dot_range(file_name@, file_name@.len() as int);
            }
            let n = file_name.unicode_len();
            Some(file_name.substring_char(i + 1, n).to_owned())
        },
        _ => None,
    }
}

/// A directory entry is a migration script when its extension is exactly `sql`.
pub fn is_migration_script(file_name: &str) -> (r: bool)
    ensures
        r == (extension_of(file_name@) == Some(seq!['s', 'q', 'l'])),
{
    match file_extension(file_name) {
        None => false,
        Some(e) => {
            let s = e.as_str();
            if s.unicode_len() != 3 {
                return false;
            }
            let r = s.get_char(0) == 's' && s.get_char(1) == 'q' && s.get_char(2) == 'l';
            proof {
                if r {
                    assert(e@ =~= seq!['s', 'q', 'l']);
                }
            }
            r
        },
    }
}

/// Index of the first `"__"` in `s`, if there is one.
fn find_separator(s: &str) -> (r: Option<usize>)
    ensures
        match r {
            None => first_sep(s@) == -1,
            Some(i) => first_sep(s@) == i as int,
        },
{
    let n = s.unicode_len();
    let mut i: usize = 0;
    while i < n && i + 1 < n
        invariant
            n == s@.len(),
            i <= n,
            first_sep(s@) == first_sep_from(s@, i as int),
        decreases n - i,
    {
        if s.get_char(i) == '_' && s.get_char(i + 1) == '_' {
            return Some(i);
        }
        i = i + 1;
    }
    None
}

/// Splits a script's file name into version and name: the version is the
/// stem up to its first `"__"`, the name is everything after it.
pub fn get_name_and_version(file_name: &str) -> (r: Result<(String, String), ScurryError>)
    ensures
        match r {
            Ok((version, name)) => {
                &&& first_sep(stem_of(file_name@)) >= 0
                &&& version@ == version_part(stem_of(file_name@))
                &&& name@ == name_part(stem_of(file_name@))
            },
            Err(e) => first_sep(stem_of(file_name@)) < 0 && e is Parse,
        },
{
    let stem = file_stem(file_name);
    let s = stem.as_str();
    match find_separator(s) {
        None => Err(
            ScurryError::Parse(
                "Invalid version and name; separate version and name with '__'".to_owned(),
            ),
        ),
        Some(i) => {
            proof {
                lemma_first_sep_range(s@, 0);
            }
            let n = s.unicode_len();
            let version = s.substring_char(0, i).to_owned();
            let name = s.substring_char(i + 2, n).to_owned();
            Ok((version, name))
        },
    }
}

/// The hex digits, lowest first.
pub open spec fn hex_digits() -> Seq<char> {
    seq!['0', '1', '2', '3', '4', '5', '6', '7', '8', '9', 'a', 'b', 'c', 'd', 'e', 'f']
}

/// Lower-case hex of a byte string, two digits per byte, high digit first.
pub open spec fn hex_of(b: Seq<u8>) -> Seq<char>
    decreases b.len(),
{
    if b.len() == 0 {
        Seq::empty()
    } else {
        hex_of(b.drop_last()) + seq![hex_digits()[(b.last() / 16) as int], hex_digits()[(b.last() % 16) as int]]
    }
}

/// The SHA-1 digest of a byte string.
pub uninterp spec fn sha1_of(data: Seq<u8>) -> Seq<u8>;

/// Relies on `sha1::Sha1::digest` (through the `Digest` trait): it returns
/// the SHA-1 digest of the bytes, which is 20 bytes long.
#[verifier::external_body]
fn sha1_digest(data: &[u8]) -> (r: Vec<u8>)
    ensures
        r@ == sha1_of(data@),
        r@.len() == 20,
{
    <sha1::Sha1 as sha1::Digest>::digest(data).to_vec()
}

/// Lower-case hex of a byte string.
pub fn to_hex(bytes: &[u8]) -> (r: String)
    ensures
        r@ == hex_of(bytes@),
{
    let digits = "0123456789abcdef";
    proof {
        reveal_strlit("0123456789abcdef");
        assert(digits@ =~= hex_digits());
    }
    let mut out = String::new();
    let mut i: usize = 0;
    while i < bytes.len()
        invariant
            i <= bytes@.len(),
            digits@ == hex_digits(),
            out@ == hex_of(bytes@.take(i as int)),
        decreases bytes@.len() - i,
    {
        let b = bytes[i];
        let hi = (b / 16) as usize;
        let lo = (b % 16) as usize;
        let ghost before = out@;
        out.append(digits.substring_char(hi, hi + 1));
        out.append(digits.substring_char(lo, lo + 1));
        proof {
            let t = bytes@.take(i + 1);
            assert(t.drop_last() =~= bytes@.take(i as int));
            assert(t.last() == b);
            assert(digits@.subrange(hi as int, hi + 1) =~= seq![hex_digits()[(b / 16) as int]]);
            assert(digits@.subrange(lo as int, lo + 1) =~= seq![hex_digits()[(b % 16) as int]]);
            assert(out@ =~= hex_of(t));
        }
        i = i + 1;
    }
    proof {
        assert(bytes@.take(bytes@.len() as int) =~= bytes@);
    }
    out
}

/// The content hash of a script: the lower-case hex of its SHA-1 digest.
pub fn hash_file_contents(contents: &[u8]) -> (r: String)
    ensures
        r@ == hex_of(sha1_of(contents@)),
{
    let digest = sha1_digest(contents);
    to_hex(digest.as_slice())
}

/// A script file as read from the migrations directory: its full path
/// (`None` when the path is not valid UTF-8), its file name, and its bytes.
pub struct ScriptFile {
    pub path: Option<String>,
    pub file_name: String,
    pub contents: Vec<u8>,
}

/// What the logic reads of a script file.
pub struct ScriptView {
    pub path: Option<Seq<char>>,
    pub file_name: Seq<char>,
    pub contents: Seq<u8>,
}

impl View for ScriptFile {
    type V = ScriptView;

    open spec fn view(&self) -> ScriptView {
        ScriptView {
            path: match self.path {
                None => None,
                Some(p) => Some(p@),
            },
            file_name: self.file_name@,
            contents: self.contents@,
        }
    }
}

/// The views of a sequence of script files.
pub open spec fn scripts_view(s: Seq<ScriptFile>) -> Seq<ScriptView> {
    s.map_values(|f: ScriptFile| f@)
}

/// A script yields a record: its path is text and its stem holds `"__"`.
pub open spec fn script_loads(f: ScriptView) -> bool {
    f.path is Some && first_sep(stem_of(f.file_name)) >= 0
}

/// The record a script yields.
pub open spec fn script_record(f: ScriptView) -> VersionView {
    VersionView {
        path: match f.path {
            Some(p) => p,
            None => Seq::empty(),
        },
        name: name_part(stem_of(f.file_name)),
        hash: hex_of(sha1_of(f.contents)),
        version: version_part(stem_of(f.file_name)),
    }
}

/// `s` with `x` placed after every record whose version is not above its own.
pub open spec fn insert_by_version(s: Seq<VersionView>, x: VersionView) -> Seq<VersionView>
    decreases s.len(),
{
    if s.len() == 0 {
        seq![x]
    } else if text_lt(x.version, s.last().version) {
        insert_by_version(s.drop_last(), x).push(s.last())
    } else {
        s.push(x)
    }
}

/// The stable sort of `s` by version: ascending, with records of equal
/// version kept in their order in `s`.
pub open spec fn sort_by_version(s: Seq<VersionView>) -> Seq<VersionView>
    decreases s.len(),
{
    if s.len() == 0 {
        Seq::empty()
    } else {
        insert_by_version(sort_by_version(s.drop_last()), s.last())
    }
}

/// The catalog that a directory listing yields.
pub open spec fn catalog_of(scripts: Seq<ScriptView>) -> Seq<VersionView> {
    sort_by_version(scripts.map_values(|f: ScriptView| script_record(f)))
}

fn insert_version(out: &mut Vec<Version>, x: Version)
    ensures
        catalog_view(final(out)@) == insert_by_version(catalog_view(old(out)@), x@),
{
    let ghost s = catalog_view(out@);
    let mut pos: usize = out.len();
    proof {
        assert(s.take(s.len() as int) =~= s);
        assert(s.skip(s.len() as int) =~= Seq::<VersionView>::empty());
        assert(insert_by_version(s, x@) =~= insert_by_version(s.take(pos as int), x@) + s.skip(
            pos as int,
        ));
    }
    while pos > 0 && text_less(x.version.as_str(), out[pos - 1].version.as_str())
        invariant
            pos <= out@.len(),
            s == catalog_view(out@),
            insert_by_version(s, x@) == insert_by_version(s.take(pos as int), x@) + s.skip(
                pos as int,
            ),
        decreases pos,
    {
        proof {
            let t = s.take(pos as int);
            assert(t.drop_last() =~= s.take(pos - 1));
            assert(t.last() == s[pos - 1]);
            assert(insert_by_version(t, x@) == insert_by_version(s.take(pos - 1), x@).push(
                s[pos - 1],
            ));
            assert(insert_by_version(s.take(pos - 1), x@).push(s[pos - 1]) + s.skip(pos as int)
                =~= insert_by_version(s.take(pos - 1), x@) + s.skip(pos - 1));
        }
        pos = pos - 1;
    }
    proof {
        let t = s.take(pos as int);
        if pos > 0 {
            assert(t.last() == s[pos - 1]);
        }
        assert(insert_by_version(t, x@) =~= t.push(x@));
    }
    let ghost xv = x@;
    out.insert(pos, x);
    proof {
        assert(catalog_view(out@) =~= s.take(pos as int).push(xv) + s.skip(pos as int));
    }
}

/// The records sorted by version, stably.
pub fn sort_versions(items: &[Version]) -> (r: Vec<Version>)
    ensures
        catalog_view(r@) == sort_by_version(catalog_view(items@)),
{
    let ghost s = catalog_view(items@);
    let mut out: Vec<Version> = Vec::new();
    let mut i: usize = 0;
    while i < items.len()
        invariant
            i <= items@.len(),
            s == catalog_view(items@),
            catalog_view(out@) == sort_by_version(s.take(i as int)),
        decreases items@.len() - i,
    {
        proof {
            assert(s.take(i + 1).drop_last() =~= s.take(i as int));
            assert(s.take(i + 1).last() == items@[i as int]@);
        }
        insert_version(&mut out, items[i].clone());
        i = i + 1;
    }
    proof {
        assert(s.take(items@.len() as int) =~= s);
    }
    out
}

/// Reads the scripts of a directory listing into a catalog: each script's
/// version and name from its file name and its hash from its contents,
/// sorted by version. Fails with a `Parse` error when a path is not text or
/// a stem has no `"__"`.
pub fn calculate_available_versions(scripts: &[ScriptFile]) -> (r: Result<
    Vec<Version>,
    ScurryError,
>)
    ensures
        match r {
            Ok(v) => {
                &&& forall|i: int| 0 <= i < scripts@.len() ==> script_loads(#[trigger] scripts@[i]@)
                &&& catalog_view(v@) == catalog_of(scripts_view(scripts@))
            },
            Err(e) => {
                &&& exists|i: int| 0 <= i < scripts@.len() && !script_loads(#[trigger] scripts@[i]@)
                &&& e is Parse
            },
        },
{
    let ghost sv = scripts_view(scripts@);
    let ghost recs = sv.map_values(|f: ScriptView| script_record(f));
    let mut res: Vec<Version> = Vec::new();
    let mut i: usize = 0;
    while i < scripts.len()
        invariant
            i <= scripts@.len(),
            sv == scripts_view(scripts@),
            recs == sv.map_values(|f: ScriptView| script_record(f)),
            forall|j: int| 0 <= j < i ==> script_loads(#[trigger] scripts@[j]@),
            catalog_view(res@) == recs.take(i as int),
        decreases scripts@.len() - i,
    {
        let file = &scripts[i];
        let hash = hash_file_contents(file.contents.as_slice());
        let (version, name) = match get_name_and_version(file.file_name.as_str()) {
            Ok(p) => p,
            Err(e) => {
                assert(!script_loads(scripts@[i as int]@));
                return Err(e);
            },
        };
        let path = match &file.path {
            Some(p) => p.clone(),
            None => {
                assert(!script_loads(scripts@[i as int]@));
                return Err(ScurryError::Parse("couldn't get file path".to_owned()));
            },
        };
        let ghost before = res@;
        let rec = Version { path, name, hash, version };
        proof {
            assert(sv[i as int] == file@);
            assert(recs[i as int] == script_record(file@));
            assert(rec@ == script_record(file@));
        }
        let ghost recv = rec@;
        res.push(rec);
        proof {
            assert(catalog_view(res@) =~= catalog_view(before).push(recv));
            assert(catalog_view(res@) =~= recs.take(i + 1));
        }
        i = i + 1;
    }
    proof {
        assert(recs.take(scripts@.len() as int) =~= recs);
    }
    Ok(sort_versions(res.as_slice()))
}

proof fn lemma_push_to_set<A>(s: Seq<A>, x: A)
    ensures
        s.push(x).to_set() == s.to_set().insert(x),
{
    let t = s.push(x);
    assert forall|e: A| t.to_set().contains(e) <==> s.to_set().insert(x).contains(e) by {
        if t.to_set().contains(e) {
            let k = choose|k: int| 0 <= k < t.len() && t[k] == e;
            if k < s.len() {
                assert(s[k] == e);
            }
        }
        if s.to_set().contains(e) {
            let k = choose|k: int| 0 <= k < s.len() && s[k] == e;
            assert(t[k] == e);
        }
        if e == x {
            assert(t[s.len() as int] == x);
        }
    }
    assert(t.to_set() =~= s.to_set().insert(x));
}

/// No two records share a version.
pub open spec fn versions_distinct(s: Seq<VersionView>) -> bool {
    forall|i: int, j: int|
        0 <= i < j < s.len() ==> #[trigger] s[i].version != #[trigger] s[j].version
}

proof fn lemma_insert_strict(s: Seq<VersionView>, x: VersionView)
    requires
        strictly_sorted(s),
        forall|i: int| 0 <= i < s.len() ==> #[trigger] s[i].version != x.version,
    ensures
        strictly_sorted(insert_by_version(s, x)),
        insert_by_version(s, x).to_set() == s.to_set().insert(x),
    decreases s.len(),
{
    let r = insert_by_version(s, x);
    if s.len() == 0 {
        assert(r.to_set() =~= s.to_set().insert(x)) by {
            assert(r[0] == x);
        }
    } else {
        let d = s.drop_last();
        let l = s.last();
        assert(s =~= d.push(l));
        if text_lt(x.version, l.version) {
            lemma_insert_strict(d, x);
            let q = insert_by_version(d, x);
            assert(r == q.push(l));
            assert forall|i: int, j: int| 0 <= i < j < r.len() implies text_lt(
                #[trigger] r[i].version,
                #[trigger] r[j].version,
            ) by {
                if j < r.len() - 1 {
                    assert(r[i] == q[i] && r[j] == q[j]);
                } else {
                    assert(q.to_set().contains(q[i]));
                    assert(d.to_set().insert(x).contains(q[i]));
                    if q[i] != x {
                        let k = choose|k: int| 0 <= k < d.len() && d[k] == q[i];
                        assert(s[k] == d[k]);
                        assert(text_lt(s[k].version, s[s.len() - 1].version));
                    }
                }
            }
            assert(r.to_set() =~= s.to_set().insert(x)) by {
                lemma_push_to_set(q, l);
                lemma_push_to_set(d, l);
            }
        } else {
            assert(l.version != x.version);
            lemma_text_lt_total(l.version, x.version);
            assert(r == s.push(x));
            assert forall|i: int, j: int| 0 <= i < j < r.len() implies text_lt(
                #[trigger] r[i].version,
                #[trigger] r[j].version,
            ) by {
                if j == r.len() - 1 && i < s.len() - 1 {
                    assert(text_lt(s[i].version, s[s.len() - 1].version));
                    lemma_text_lt_transitive(s[i].version, l.version, x.version);
                }
            }
            lemma_push_to_set(s, x);
        }
    }
}

/// Sorting records of distinct versions gives strictly rising versions and
/// keeps exactly the records given.
pub proof fn lemma_sort_strict(s: Seq<VersionView>)
    requires
        versions_distinct(s),
    ensures
        strictly_sorted(sort_by_version(s)),
        sort_by_version(s).to_set() == s.to_set(),
    decreases s.len(),
{
    if s.len() > 0 {
        let d = s.drop_last();
        let l = s.last();
        assert(s =~= d.push(l));
        lemma_sort_strict(d);
        let q = sort_by_version(d);
        assert forall|i: int| 0 <= i < q.len() implies #[trigger] q[i].version != l.version by {
            assert(q.to_set().contains(q[i]));
            let k = choose|k: int| 0 <= k < d.len() && d[k] == q[i];
            assert(s[k] == d[k]);
            assert(s[k].version != s[s.len() - 1].version);
        }
        lemma_insert_strict(q, l);
        lemma_push_to_set(d, l);
    }
}

proof fn lemma_strict_same_set_equal(a: Seq<VersionView>, b: Seq<VersionView>)
    requires
        strictly_sorted(a),
        strictly_sorted(b),
        a.to_set() == b.to_set(),
    ensures
        a == b,
    decreases a.len(),
{
    if a.len() == 0 {
        if b.len() > 0 {
            assert(b.to_set().contains(b[0]));
        }
        assert(a =~= b);
    } else if b.len() == 0 {
        assert(a.to_set().contains(a[0]));
    } else {
        let la = a.last();
        let lb = b.last();
        assert(a.to_set().contains(la));
        assert(b.to_set().contains(lb));
        let k = choose|k: int| 0 <= k < b.len() && b[k] == la;
        let k2 = choose|k: int| 0 <= k < a.len() && a[k] == lb;
        if la != lb {
            assert(k < b.len() - 1);
            assert(k2 < a.len() - 1);
            assert(text_lt(b[k].version, b[b.len() - 1].version));
            assert(text_lt(a[k2].version, a[a.len() - 1].version));
            lemma_text_lt_asymmetric(la.version, lb.version);
        }
        let da = a.drop_last();
        let db = b.drop_last();
        assert forall|i: int| 0 <= i < da.len() implies #[trigger] da[i] != la by {
            assert(text_lt(a[i].version, a[a.len() - 1].version));
            lemma_text_lt_irreflexive(la.version);
        }
        assert forall|i: int| 0 <= i < db.len() implies #[trigger] db[i] != lb by {
            assert(text_lt(b[i].version, b[b.len() - 1].version));
            lemma_text_lt_irreflexive(lb.version);
        }
        assert(da.to_set() =~= a.to_set().remove(la)) by {
            assert(a =~= da.push(la));
            lemma_push_to_set(da, la);
        }
        assert(db.to_set() =~= b.to_set().remove(lb)) by {
            assert(b =~= db.push(lb));
            lemma_push_to_set(db, lb);
        }
        assert(strictly_sorted(da));
        assert(strictly_sorted(db));
        lemma_strict_same_set_equal(da, db);
        assert(a =~= da.push(la));
        assert(b =~= db.push(lb));
    }
}

/// Listing the same scripts in another order yields the same catalog, when
/// no two scripts of either listing share a version.
pub proof fn lemma_catalog_ignores_listing_order(a: Seq<ScriptView>, b: Seq<ScriptView>)
    requires
        a.to_set() == b.to_set(),
        versions_distinct(a.map_values(|f: ScriptView| script_record(f))),
        versions_distinct(b.map_values(|f: ScriptView| script_record(f))),
    ensures
        catalog_of(a) == catalog_of(b),
{
    let f = |f: ScriptView| script_record(f);
    let ra = a.map_values(f);
    let rb = b.map_values(f);
    a.lemma_to_set_map_commutes(f);
    b.lemma_to_set_map_commutes(f);
    lemma_sort_strict(ra);
    lemma_sort_strict(rb);
    lemma_strict_same_set_equal(sort_by_version(ra), sort_by_version(rb));
}

/// Versions never fall along the sequence.
pub open spec fn ascending(s: Seq<VersionView>) -> bool {
    forall|i: int, j: int|
        0 <= i < j < s.len() ==> text_le(#[trigger] s[i].version, #[trigger] s[j].version)
}

proof fn lemma_insert_ascending(s: Seq<VersionView>, x: VersionView)
    requires
        ascending(s),
    ensures
        ascending(insert_by_version(s, x)),
        insert_by_version(s, x).to_set() == s.to_set().insert(x),
        insert_by_version(s, x).to_multiset() == s.to_multiset().insert(x),
    decreases s.len(),
{
    broadcast use vstd::seq_lib::group_to_multiset_ensures;

    let r = insert_by_version(s, x);
    if s.len() == 0 {
        assert(r =~= Seq::<VersionView>::empty().push(x));
        lemma_push_to_set(Seq::<VersionView>::empty(), x);
        assert(Seq::<VersionView>::empty().to_set() =~= s.to_set());
        assert(Seq::<VersionView>::empty() =~= s);
    } else {
        let d = s.drop_last();
        let l = s.last();
        assert(s =~= d.push(l));
        if text_lt(x.version, l.version) {
            lemma_insert_ascending(d, x);
            let q = insert_by_version(d, x);
            assert(r == q.push(l));
            assert forall|i: int, j: int| 0 <= i < j < r.len() implies text_le(
                #[trigger] r[i].version,
                #[trigger] r[j].version,
            ) by {
                if j < r.len() - 1 {
                    assert(r[i] == q[i] && r[j] == q[j]);
                } else {
                    assert(q.to_set().contains(q[i]));
                    assert(d.to_set().insert(x).contains(q[i]));
                    if q[i] != x {
                        let k = choose|k: int| 0 <= k < d.len() && d[k] == q[i];
                        assert(s[k] == d[k]);
                        assert(text_le(s[k].version, s[s.len() - 1].version));
                    } else {
                        lemma_text_lt_asymmetric(x.version, l.version);
                    }
                }
            }
            lemma_push_to_set(q, l);
            lemma_push_to_set(d, l);
            assert(r.to_multiset() =~= s.to_multiset().insert(x));
        } else {
            assert(r == s.push(x));
            assert forall|i: int, j: int| 0 <= i < j < r.len() implies text_le(
                #[trigger] r[i].version,
                #[trigger] r[j].version,
            ) by {
                if j == r.len() - 1 && i < s.len() - 1 {
                    assert(text_le(s[i].version, s[s.len() - 1].version));
                    lemma_text_le_transitive(s[i].version, l.version, x.version);
                }
            }
            lemma_push_to_set(s, x);
        }
    }
}

/// `sort_by_version` sorts: its result is ascending by version and holds
/// exactly the records given, each as often as given.
pub proof fn lemma_sort_by_version_sorts(s: Seq<VersionView>)
    ensures
        ascending(sort_by_version(s)),
        sort_by_version(s).to_multiset() == s.to_multiset(),
    decreases s.len(),
{
    broadcast use vstd::seq_lib::group_to_multiset_ensures;

    if s.len() == 0 {
        assert(sort_by_version(s) =~= s);
    } else {
        let d = s.drop_last();
        assert(s =~= d.push(s.last()));
        lemma_sort_by_version_sorts(d);
        lemma_insert_ascending(sort_by_version(d), s.last());
    }
}

} // verus!

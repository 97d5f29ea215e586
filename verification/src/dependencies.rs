//! Extraction of the development-dependencies table: loading it from
//! manifest text, filtering out the tool's own self-referential entry, and
//! anchoring every declared relative path at the manifest's directory.

use vstd::prelude::*;

use crate::decl::{decode_spec, dep_wf, DepSpec, Dependency, Error};
use crate::order::{find_entry, has_key, keys_sorted, str_lt};
use crate::shape::{
    raw_entries_view, shape_of, toml_classify, toml_parse, toml_parsed, Shape, ShapeSpec,
};
use crate::text::{join_path, join_spec, str_eq};

verus! {

/// The name of this tool's own crate. A host project declares this tool as
/// a development dependency of itself, and that self-referential entry must
/// not survive extraction.
pub open spec fn self_name() -> Seq<char> {
    "trybuild"@
}

/// Decoding of a whole development-dependencies table, entry by entry and
/// in order; one bad declaration fails the whole table.
pub open spec fn decode_deps(es: Seq<(Seq<char>, toml::Value)>) -> Option<
    Seq<(Seq<char>, DepSpec)>,
>
    decreases es.len(),
{
    if es.len() == 0 {
        Some(Seq::empty())
    } else {
        match decode_spec(shape_of(es[0].1)) {
            None => None,
            Some(d) => match decode_deps(es.skip(1)) {
                None => None,
                Some(t) => Some(seq![(es[0].0, d)] + t),
            },
        }
    }
}

/// The development-dependencies of a manifest document: an absent section
/// is an empty table; a present one must be a table of declarations; any
/// other section of the document is ignored.
pub open spec fn dev_deps_of(doc: ShapeSpec) -> Option<Seq<(Seq<char>, DepSpec)>> {
    match doc {
        ShapeSpec::Table(es) => match find_entry(es, "dev-dependencies"@) {
            None => Some(Seq::empty()),
            Some(v) => match shape_of(v) {
                ShapeSpec::Table(ds) => decode_deps(ds),
                _ => None,
            },
        },
        _ => None,
    }
}

/// One declaration after normalization: a declared path is joined onto the
/// manifest's directory; no other attribute is altered.
pub open spec fn rewrite_dep(d: DepSpec, dir: Seq<char>) -> DepSpec {
    DepSpec {
        version: d.version,
        path: match d.path {
            Some(p) => Some(join_spec(dir, p)),
            None => None,
        },
        rest: d.rest,
    }
}

/// Normalization of the decoded table: the tool's own entry is dropped and
/// every remaining declaration is rewritten by `rewrite_dep`, in order.
pub open spec fn normalize_spec(es: Seq<(Seq<char>, DepSpec)>, dir: Seq<char>) -> Seq<
    (Seq<char>, DepSpec),
>
    decreases es.len(),
{
    if es.len() == 0 {
        Seq::empty()
    } else {
        let tail = normalize_spec(es.skip(1), dir);
        if es[0].0 == self_name() {
            tail
        } else {
            seq![(es[0].0, rewrite_dep(es[0].1, dir))] + tail
        }
    }
}

/// The whole extraction, from manifest text to the normalized table.
pub open spec fn extracted(dir: Seq<char>, text: Seq<char>) -> Option<Seq<(Seq<char>, DepSpec)>> {
    match toml_parsed(text) {
        None => None,
        Some(doc) => match dev_deps_of(shape_of(doc)) {
            None => None,
            Some(es) => Some(normalize_spec(es, dir)),
        },
    }
}

/// Decoding preserves each entry's name and position.
proof fn lemma_decode_deps_keys(es: Seq<(Seq<char>, toml::Value)>)
    requires
        decode_deps(es) is Some,
    ensures
        decode_deps(es)->0.len() == es.len(),
        forall|i: int| 0 <= i < es.len() ==> (#[trigger] decode_deps(es)->0[i]).0 == es[i].0,
    decreases es.len(),
{
    if es.len() > 0 {
        lemma_decode_deps_keys(es.skip(1));
        let t = decode_deps(es.skip(1))->0;
        assert forall|i: int| 0 <= i < es.len() implies (#[trigger] decode_deps(es)->0[i]).0
            == es[i].0 by {
            if i > 0 {
                assert(decode_deps(es)->0[i] == t[i - 1]);
                assert(es.skip(1)[i - 1] == es[i]);
            }
        }
    }
}

/// The normalized table never carries the tool's own name, and every entry
/// of it is some source entry's name with that entry's declaration
/// rewritten.
pub proof fn lemma_normalize_entries(es: Seq<(Seq<char>, DepSpec)>, dir: Seq<char>)
    ensures
        !has_key(normalize_spec(es, dir), self_name()),
        forall|i: int|
            0 <= i < normalize_spec(es, dir).len() ==> exists|j: int|
                0 <= j < es.len() && (#[trigger] normalize_spec(es, dir)[i]).0 == es[j].0
                    && normalize_spec(es, dir)[i].1 == rewrite_dep(es[j].1, dir),
    decreases es.len(),
{
    if es.len() == 0 {
        assert(!has_key(normalize_spec(es, dir), self_name()));
    } else {
        lemma_normalize_entries(es.skip(1), dir);
        let out = normalize_spec(es, dir);
        let tail = normalize_spec(es.skip(1), dir);
        assert forall|i: int| 0 <= i < out.len() implies exists|j: int|
            0 <= j < es.len() && (#[trigger] out[i]).0 == es[j].0 && out[i].1 == rewrite_dep(
                es[j].1,
                dir,
            ) by {
            if es[0].0 == self_name() {
                let j0 = choose|j0: int|
                    0 <= j0 < es.skip(1).len() && (#[trigger] tail[i]).0 == es.skip(1)[j0].0
                        && tail[i].1 == rewrite_dep(es.skip(1)[j0].1, dir);
                assert(es.skip(1)[j0] == es[j0 + 1]);
                assert(out[i].0 == es[j0 + 1].0 && out[i].1 == rewrite_dep(es[j0 + 1].1, dir));
            } else {
                if i == 0 {
                    assert(out[0].0 == es[0].0 && out[0].1 == rewrite_dep(es[0].1, dir));
                } else {
                    let j0 = choose|j0: int|
                        0 <= j0 < es.skip(1).len() && (#[trigger] tail[i - 1]).0 == es.skip(1)[j0].0
                            && tail[i - 1].1 == rewrite_dep(es.skip(1)[j0].1, dir);
                    assert(out[i] == tail[i - 1]);
                    assert(es.skip(1)[j0] == es[j0 + 1]);
                    assert(out[i].0 == es[j0 + 1].0 && out[i].1 == rewrite_dep(es[j0 + 1].1, dir));
                }
            }
        }
        if has_key(out, self_name()) {
            let i = choose|i: int| 0 <= i < out.len() && (#[trigger] out[i]).0 == self_name();
            if es[0].0 == self_name() {
                assert(out[i] == tail[i]);
            } else {
                assert(i > 0 ==> out[i] == tail[i - 1]);
            }
        }
    }
}

/// Normalization keeps the strict name order.
pub proof fn lemma_normalize_sorted(es: Seq<(Seq<char>, DepSpec)>, dir: Seq<char>)
    requires
        keys_sorted(es),
    ensures
        keys_sorted(normalize_spec(es, dir)),
    decreases es.len(),
{
    if es.len() > 0 {
        assert forall|i: int, j: int| 0 <= i < j < es.skip(1).len() implies str_lt(
            #[trigger] es.skip(1)[i].0,
            #[trigger] es.skip(1)[j].0,
        ) by {
            assert(es.skip(1)[i] == es[i + 1] && es.skip(1)[j] == es[j + 1]);
        }
        lemma_normalize_sorted(es.skip(1), dir);
        lemma_normalize_entries(es.skip(1), dir);
        let out = normalize_spec(es, dir);
        let tail = normalize_spec(es.skip(1), dir);
        if es[0].0 != self_name() {
            assert forall|i: int, j: int| 0 <= i < j < out.len() implies str_lt(
                #[trigger] out[i].0,
                #[trigger] out[j].0,
            ) by {
                if i == 0 {
                    assert(out[j] == tail[j - 1]);
                    let j0 = choose|j0: int|
                        0 <= j0 < es.skip(1).len() && (#[trigger] tail[j - 1]).0 == es.skip(1)[j0].0
                            && tail[j - 1].1 == rewrite_dep(es.skip(1)[j0].1, dir);
                    assert(es.skip(1)[j0] == es[j0 + 1]);
                    assert(str_lt(es[0].0, es[j0 + 1].0));
                } else {
                    assert(out[i] == tail[i - 1] && out[j] == tail[j - 1]);
                }
            }
        }
    }
}

/// The extracted mapping: dependency name to declaration, in strict name
/// order.
#[derive(Debug, Clone)]
pub struct DepMap {
    entries: Vec<(String, Dependency)>,
}

/// The entries of the mapping, with names abstracted to sequences.
pub open spec fn dep_entries_view(es: Seq<(String, Dependency)>) -> Seq<(Seq<char>, DepSpec)> {
    es.map_values(|p: (String, Dependency)| (p.0@, p.1@))
}

impl View for DepMap {
    type V = Seq<(Seq<char>, DepSpec)>;

    closed spec fn view(&self) -> Seq<(Seq<char>, DepSpec)> {
        dep_entries_view(self.entries@)
    }
}

impl DepMap {
    /// Names strictly increasing, every declaration well-formed.
    pub open spec fn wf(&self) -> bool {
        keys_sorted(self@) && forall|i: int|
            0 <= i < self@.len() ==> dep_wf((#[trigger] self@[i]).1)
    }

    /// The empty mapping.
    pub fn new() -> (r: DepMap)
        ensures
            r@ == Seq::<(Seq<char>, DepSpec)>::empty(),
            r.wf(),
    {
        let r = DepMap { entries: Vec::new() };
        proof {
            assert(r@ =~= Seq::<(Seq<char>, DepSpec)>::empty());
        }
        r
    }

    /// How many dependencies were extracted.
    pub fn len(&self) -> (n: usize)
        ensures
            n == self@.len(),
    {
        self.entries.len()
    }

    /// The declaration under a name, if that name was extracted.
    #[verifier::loop_isolation(false)]
    pub fn get(&self, name: &str) -> (r: Option<&Dependency>)
        ensures
            (r matches Some(d) ==> find_entry(self@, name@) == Some(d@)),
            (r is None ==> find_entry(self@, name@) is None),
    {
        let n = self.entries.len();
        let mut i: usize = 0;
        proof {
            assert(self@.skip(0) =~= self@);
        }
        while i < n
            invariant
                n == self.entries@.len(),
                i <= n,
                find_entry(self@, name@) == find_entry(self@.skip(i as int), name@),
            decreases n - i,
        {
            proof {
                assert(self@.skip(i as int)[0] == self@[i as int]);
            }
            if str_eq(self.entries[i].0.as_str(), name) {
                proof {
                    assert(self@[i as int] == (self.entries@[i as int].0@,
                        self.entries@[i as int].1@));
                    assert(find_entry(self@, name@) == Some(self@[i as int].1));
                }
                return Some(&self.entries[i].1);
            }
            proof {
                assert(self@.skip(i as int).skip(1) =~= self@.skip(i as int + 1));
            }
            i = i + 1;
        }
        proof {
            assert(self@.skip(n as int) =~= Seq::<(Seq<char>, DepSpec)>::empty());
        }
        None
    }

    /// Whether a name was extracted at all.
    pub fn contains(&self, name: &str) -> (r: bool)
        ensures
            r == has_key(self@, name@),
    {
        proof {
            crate::order::lemma_find_entry_has_key(self@, name@);
        }
        self.get(name).is_some()
    }

    /// Hands the entries over to the caller, in order.
    pub fn into_entries(self) -> (r: Vec<(String, Dependency)>)
        ensures
            dep_entries_view(r@) == self@,
    {
        self.entries
    }

    /// Drops the tool's own entry and anchors every declared path at the
    /// manifest's directory; no other attribute of any entry is altered.
    pub fn normalize(&mut self, manifest_dir: &str)
        requires
            old(self).wf(),
        ensures
            final(self)@ == normalize_spec(old(self)@, manifest_dir@),
            final(self).wf(),
            !has_key(final(self)@, self_name()),
    {
        let ghost all = self@;
        let mut out: Vec<(String, Dependency)> = Vec::new();
        proof {
            assert(dep_entries_view(out@) =~= Seq::<(Seq<char>, DepSpec)>::empty());
        }
        while self.entries.len() > 0
            invariant
                dep_entries_view(out@) + normalize_spec(dep_entries_view(self.entries@),
                    manifest_dir@) == normalize_spec(all, manifest_dir@),
            decreases self.entries.len(),
        {
            let ghost pre = dep_entries_view(self.entries@);
            let ghost out_pre = dep_entries_view(out@);
            let (k, d) = self.entries.remove(0);
            proof {
                assert(pre[0] == (k@, d@));
                assert(dep_entries_view(self.entries@) =~= pre.skip(1));
            }
            if !str_eq(k.as_str(), "trybuild") {
                let ghost dv = d@;
                let d2 = rewrite_path(d, manifest_dir);
                out.push((k, d2));
                proof {
                    assert(dep_entries_view(out@) =~= out_pre.push((k@, d2@)));
                    assert(normalize_spec(pre, manifest_dir@) == seq![(k@, rewrite_dep(dv, manifest_dir@))]
                        + normalize_spec(pre.skip(1), manifest_dir@));
                    assert(dep_entries_view(out@) + normalize_spec(pre.skip(1), manifest_dir@)
                        =~= out_pre + normalize_spec(pre, manifest_dir@));
                }
            } else {
                proof {
                    assert(normalize_spec(pre, manifest_dir@) == normalize_spec(pre.skip(1),
                        manifest_dir@));
                }
            }
        }
        proof {
            assert(dep_entries_view(self.entries@) =~= Seq::<(Seq<char>, DepSpec)>::empty());
        }
        self.entries = out;
        proof {
            assert(final(self)@ == normalize_spec(all, manifest_dir@));
            lemma_normalize_entries(all, manifest_dir@);
            lemma_normalize_sorted(all, manifest_dir@);
            let norm = normalize_spec(all, manifest_dir@);
            assert forall|i: int| 0 <= i < norm.len() implies dep_wf((#[trigger] norm[i]).1) by {
                let j = choose|j: int|
                    0 <= j < all.len() && (#[trigger] norm[i]).0 == all[j].0 && norm[i].1
                        == rewrite_dep(all[j].1, manifest_dir@);
                assert(dep_wf(all[j].1));
            }
        }
    }
}

/// Joins a declared path, if any, onto the manifest's directory.
fn rewrite_path(d: Dependency, manifest_dir: &str) -> (r: Dependency)
    ensures
        r@ == rewrite_dep(d@, manifest_dir@),
{
    let ghost dv = d@;
    let Dependency { version, path, rest } = d;
    let path2 = match path {
        Some(p) => Some(join_path(manifest_dir, p.as_str())),
        None => None,
    };
    let r = Dependency { version, path: path2, rest };
    proof {
        assert(r@ =~= rewrite_dep(dv, manifest_dir@));
    }
    r
}

/// Removes the first entry bearing `key` from the table and hands its value
/// out; the table keeps the other entries.
#[verifier::loop_isolation(false)]
fn take_entry(es: &mut Vec<(String, toml::Value)>, key: &str) -> (r: Option<toml::Value>)
    ensures
        r == find_entry(raw_entries_view(old(es)@), key@),
{
    let ghost all = raw_entries_view(es@);
    let n = es.len();
    let mut i: usize = 0;
    proof {
        assert(all.skip(0) =~= all);
    }
    while i < n
        invariant
            n == es@.len(),
            i <= n,
            all == raw_entries_view(es@),
            find_entry(all, key@) == find_entry(all.skip(i as int), key@),
        decreases n - i,
    {
        proof {
            assert(all.skip(i as int)[0] == all[i as int]);
        }
        if str_eq(es[i].0.as_str(), key) {
            proof {
                assert(all[i as int] == (es@[i as int].0@, es@[i as int].1));
                assert(find_entry(all.skip(i as int), key@) == Some(all[i as int].1));
            }
            let (_k, v) = es.remove(i);
            return Some(v);
        }
        proof {
            assert(all.skip(i as int).skip(1) =~= all.skip(i as int + 1));
        }
        i = i + 1;
    }
    proof {
        assert(all.skip(n as int) =~= Seq::<(Seq<char>, toml::Value)>::empty());
    }
    None
}

/// Decodes every declaration of the raw development-dependencies table, in
/// order; one bad declaration fails the whole table.
#[verifier::loop_isolation(false)]
fn decode_table(ds: Vec<(String, toml::Value)>) -> (r: Result<Vec<(String, Dependency)>, Error>)
    ensures
        (r is Ok <==> decode_deps(raw_entries_view(ds@)) is Some),
        (r matches Ok(out) ==> Some(dep_entries_view(out@)) == decode_deps(raw_entries_view(ds@))),
        (r matches Ok(out) ==> forall|j: int|
            0 <= j < out@.len() ==> dep_wf((#[trigger] dep_entries_view(out@)[j]).1)),
        (r matches Err(e) ==> e == Error::UnexpectedShape),
{
    let ghost all = raw_entries_view(ds@);
    let mut rem = ds;
    let mut out: Vec<(String, Dependency)> = Vec::new();
    proof {
        assert(dep_entries_view(out@) =~= Seq::<(Seq<char>, DepSpec)>::empty());
        assert(raw_entries_view(rem@) == all);
    }
    while rem.len() > 0
        invariant
            (match decode_deps(raw_entries_view(rem@)) {
                None => decode_deps(all) is None,
                Some(t) => decode_deps(all) == Some(dep_entries_view(out@) + t),
            }),
            forall|j: int| 0 <= j < out@.len() ==> dep_wf((#[trigger] dep_entries_view(out@)[j]).1),
        decreases rem.len(),
    {
        let ghost pre = raw_entries_view(rem@);
        let ghost out_pre = dep_entries_view(out@);
        let (k, v) = rem.remove(0);
        proof {
            assert(pre[0] == (k@, v));
            assert(raw_entries_view(rem@) =~= pre.skip(1));
        }
        match Dependency::from_value(v) {
            Ok(d) => {
                out.push((k, d));
                proof {
                    assert(dep_entries_view(out@) =~= out_pre.push((k@, d@)));
                    match decode_deps(pre.skip(1)) {
                        Some(t) => {
                            assert(decode_deps(pre) == Some(seq![(k@, d@)] + t));
                            assert(out_pre + (seq![(k@, d@)] + t) =~= dep_entries_view(out@) + t);
                        },
                        None => {},
                    }
                }
            }
            Err(_e) => {
                proof {
                    assert(decode_deps(pre) is None);
                }
                return Err(Error::UnexpectedShape);
            }
        }
    }
    proof {
        assert(raw_entries_view(rem@) =~= Seq::<(Seq<char>, toml::Value)>::empty());
        assert(dep_entries_view(out@) + Seq::<(Seq<char>, DepSpec)>::empty() =~= dep_entries_view(
            out@,
        ));
    }
    Ok(out)
}

/// Loads and normalizes the development-dependencies of the given manifest
/// text, whose file lives in `manifest_dir`; `None` stands for a manifest
/// that could not be read.
pub fn try_get(manifest_dir: &str, manifest_text: Option<&str>) -> (r: Result<DepMap, Error>)
    ensures
        (match manifest_text {
            None => r == Err::<DepMap, Error>(Error::Io),
            Some(t) => (match toml_parsed(t@) {
                None => r == Err::<DepMap, Error>(Error::Parse),
                Some(doc) => (match dev_deps_of(shape_of(doc)) {
                    None => r == Err::<DepMap, Error>(Error::UnexpectedShape),
                    Some(es) => r matches Ok(m) && m@ == normalize_spec(es, manifest_dir@),
                }),
            }),
        }),
        (r matches Ok(m) ==> m.wf() && !has_key(m@, self_name())),
{
    let text = match manifest_text {
        None => {
            return Err(Error::Io);
        },
        Some(t) => t,
    };
    let doc = match toml_parse(text) {
        None => {
            return Err(Error::Parse);
        },
        Some(v) => v,
    };
    let shaped = toml_classify(doc);
    let mut top = match shaped {
        Shape::Table(es) => es,
        Shape::Str(_s) => {
            return Err(Error::UnexpectedShape);
        },
        Shape::Other(_o) => {
            return Err(Error::UnexpectedShape);
        },
    };
    let dd = match take_entry(&mut top, "dev-dependencies") {
        None => {
            let m = DepMap::new();
            proof {
                assert(normalize_spec(Seq::empty(), manifest_dir@) == Seq::<(
                    Seq<char>,
                    DepSpec,
                )>::empty());
            }
            return Ok(m);
        },
        Some(v) => v,
    };
    let ds = match toml_classify(dd) {
        Shape::Table(ds) => ds,
        Shape::Str(_s) => {
            return Err(Error::UnexpectedShape);
        },
        Shape::Other(_o) => {
            return Err(Error::UnexpectedShape);
        },
    };
    let ghost ds_view = raw_entries_view(ds@);
    let entries = match decode_table(ds) {
        Ok(out) => out,
        Err(e) => {
            return Err(e);
        },
    };
    let mut m = DepMap { entries };
    proof {
        lemma_decode_deps_keys(ds_view);
        assert forall|i: int, j: int| 0 <= i < j < m@.len() implies str_lt(
            #[trigger] m@[i].0,
            #[trigger] m@[j].0,
        ) by {
            assert(m@[i].0 == ds_view[i].0 && m@[j].0 == ds_view[j].0);
        }
        assert(m.wf());
    }
    m.normalize(manifest_dir);
    Ok(m)
}

/// Extracts the development-dependencies of the manifest text found in
/// `manifest_dir`. Never fails: on an unreadable file, malformed text, or a
/// declaration in the wrong shape, the result is simply empty.
pub fn get(manifest_dir: &str, manifest_text: Option<&str>) -> (r: DepMap)
    ensures
        r.wf(),
        !has_key(r@, self_name()),
        (match manifest_text {
            None => r@ == Seq::<(Seq<char>, DepSpec)>::empty(),
            Some(t) => (match extracted(manifest_dir@, t@) {
                Some(m) => r@ == m,
                None => r@ == Seq::<(Seq<char>, DepSpec)>::empty(),
            }),
        }),
{
    match try_get(manifest_dir, manifest_text) {
        Ok(m) => m,
        Err(_e) => DepMap::new(),
    }
}

} // verus!

//! The polymorphic dependency declaration: one entry of the
//! development-dependencies table, authored either as a bare version string
//! or as a table of attributes, with every unrecognized attribute preserved
//! verbatim.

use vstd::prelude::*;

use crate::shape::{raw_entries_view, shape_of, toml_classify, toml_string, Shape, ShapeSpec};
use crate::text::str_eq;

verus! {

/// The ways an extraction can fail, unified across the load.
#[derive(Clone, Copy, Debug, PartialEq, Eq, Structural)]
pub enum Error {
    /// The manifest file could not be read.
    Io,
    /// The manifest text is not a well-formed TOML document.
    Parse,
    /// A value has a shape the dependency schema does not accept: a
    /// declaration that is neither a string nor a table, a non-string
    /// `version` or `path`, or a development-dependencies section that is
    /// not a table.
    UnexpectedShape,
}

/// One normalized dependency declaration: the recognized attributes in
/// typed slots, everything else carried through untouched in `rest`.
#[derive(Debug, Clone)]
pub struct Dependency {
    /// The semantic-version requirement, if declared.
    pub version: Option<String>,
    /// The local filesystem path, if declared: relative as authored,
    /// absolute once normalized against the manifest's directory.
    pub path: Option<String>,
    /// All other attributes of the declaration, key and value verbatim.
    pub rest: Vec<(String, toml::Value)>,
}

/// The mathematical shadow of a `Dependency`.
#[verifier::ext_equal]
pub struct DepSpec {
    pub version: Option<Seq<char>>,
    pub path: Option<Seq<char>>,
    pub rest: Seq<(Seq<char>, toml::Value)>,
}

impl View for Dependency {
    type V = DepSpec;

    open spec fn view(&self) -> DepSpec {
        DepSpec {
            version: match self.version {
                Some(s) => Some(s@),
                None => None,
            },
            path: match self.path {
                Some(p) => Some(p@),
                None => None,
            },
            rest: raw_entries_view(self.rest@),
        }
    }
}

/// The declaration with no attribute at all.
pub open spec fn empty_dep() -> DepSpec {
    DepSpec { version: None, path: None, rest: Seq::empty() }
}

/// No key of `rest` shadows a recognized attribute.
pub open spec fn dep_wf(d: DepSpec) -> bool {
    forall|i: int|
        0 <= i < d.rest.len() ==> (#[trigger] d.rest[i]).0 != "version"@ && d.rest[i].0 != "path"@
}

/// Routing of one table entry: a recognized key must carry a string and
/// fills its typed slot; any other key is appended to `rest` verbatim.
pub open spec fn dep_step(d: DepSpec, k: Seq<char>, v: toml::Value) -> Option<DepSpec> {
    if k == "version"@ {
        match shape_of(v) {
            ShapeSpec::Str(s) => Some(DepSpec { version: Some(s), path: d.path, rest: d.rest }),
            _ => None,
        }
    } else if k == "path"@ {
        match shape_of(v) {
            ShapeSpec::Str(s) => Some(DepSpec { version: d.version, path: Some(s), rest: d.rest }),
            _ => None,
        }
    } else {
        Some(DepSpec { version: d.version, path: d.path, rest: d.rest.push((k, v)) })
    }
}

/// Folds the entries of a declaration table over `dep_step`, left to right.
pub open spec fn dep_fold(d: DepSpec, es: Seq<(Seq<char>, toml::Value)>) -> Option<DepSpec>
    decreases es.len(),
{
    if es.len() == 0 {
        Some(d)
    } else {
        match dep_step(d, es[0].0, es[0].1) {
            None => None,
            Some(d2) => dep_fold(d2, es.skip(1)),
        }
    }
}

/// What decoding a declaration of a given shape yields: a bare string is a
/// version requirement alone; a table is folded entry by entry; any other
/// shape is rejected.
pub open spec fn decode_spec(s: ShapeSpec) -> Option<DepSpec> {
    match s {
        ShapeSpec::Str(v) => Some(DepSpec { version: Some(v), path: None, rest: Seq::empty() }),
        ShapeSpec::Table(es) => dep_fold(empty_dep(), es),
        ShapeSpec::Other => None,
    }
}

/// A declaration authored as a bare string is exactly a declaration whose
/// only attribute is that version requirement.
pub proof fn lemma_decode_bare_string(s: Seq<char>)
    ensures
        decode_spec(ShapeSpec::Str(s)) == Some(
            DepSpec { version: Some(s), path: None, rest: Seq::empty() },
        ),
{
}

impl Dependency {
    /// Decodes one declaration from its outermost shape.
    pub fn decode_shape(shape: Shape) -> (r: Result<Dependency, Error>)
        ensures
            r is Ok <==> decode_spec(shape@) is Some,
            (r matches Ok(d) ==> Some(d@) == decode_spec(shape@)),
            (r matches Ok(d) ==> dep_wf(d@)),
            (r matches Err(e) ==> e == Error::UnexpectedShape),
    {
        let ghost orig: ShapeSpec = shape@;
        match shape {
            Shape::Str(s) => {
                let d = Dependency { version: Some(s), path: None, rest: Vec::new() };
                assert(d@ =~= decode_spec(orig)->0);
                Ok(d)
            }
            Shape::Table(mut es) => {
                let ghost all: Seq<(Seq<char>, toml::Value)> = raw_entries_view(es@);
                let mut d = Dependency { version: None, path: None, rest: Vec::new() };
                proof {
                    assert(orig == ShapeSpec::Table(all));
                    assert(decode_spec(orig) == dep_fold(empty_dep(), all));
                    assert(d@ =~= empty_dep());
                }
                while es.len() > 0
                    invariant
                        shape@ == orig,
                        orig == ShapeSpec::Table(all),
                        dep_fold(d@, raw_entries_view(es@)) == dep_fold(empty_dep(), all),
                        dep_wf(d@),
                    decreases es.len(),
                {
                    let ghost pre = raw_entries_view(es@);
                    let ghost d_pre = d@;
                    let (k, v) = es.remove(0);
                    proof {
                        assert(pre[0] == (k@, v));
                        assert(raw_entries_view(es@) =~= pre.skip(1));
                    }
                    if str_eq(k.as_str(), "version") {
                        let w = toml_classify(v);
                        proof {
                            assert(w@ == shape_of(v));
                        }
                        match w {
                            Shape::Str(s) => {
                                d.version = Some(s);
                                proof {
                                    assert(dep_step(d_pre, k@, v) == Some(d@));
                                }
                            }
                            Shape::Table(_t) => {
                                proof {
                                    assert(dep_step(d_pre, k@, v) is None);
                                    assert(dep_fold(d_pre, pre) is None);
                                    assert(decode_spec(orig) is None);
                                }
                                return Err(Error::UnexpectedShape);
                            }
                            Shape::Other(_o) => {
                                proof {
                                    assert(dep_step(d_pre, k@, v) is None);
                                    assert(dep_fold(d_pre, pre) is None);
                                    assert(decode_spec(orig) is None);
                                }
                                return Err(Error::UnexpectedShape);
                            }
                        }
                    } else if str_eq(k.as_str(), "path") {
                        let w = toml_classify(v);
                        proof {
                            assert(w@ == shape_of(v));
                        }
                        match w {
                            Shape::Str(s) => {
                                d.path = Some(s);
                                proof {
                                    assert(dep_step(d_pre, k@, v) == Some(d@));
                                }
                            }
                            Shape::Table(_t) => {
                                proof {
                                    assert(dep_step(d_pre, k@, v) is None);
                                    assert(dep_fold(d_pre, pre) is None);
                                    assert(decode_spec(orig) is None);
                                }
                                return Err(Error::UnexpectedShape);
                            }
                            Shape::Other(_o) => {
                                proof {
                                    assert(dep_step(d_pre, k@, v) is None);
                                    assert(dep_fold(d_pre, pre) is None);
                                    assert(decode_spec(orig) is None);
                                }
                                return Err(Error::UnexpectedShape);
                            }
                        }
                    } else {
                        d.rest.push((k, v));
                        proof {
                            assert(d@.rest =~= d_pre.rest.push((k@, v)));
                            assert(dep_step(d_pre, k@, v) == Some(d@));
                        }
                    }
                }
                proof {
                    assert(raw_entries_view(es@) =~= Seq::<(Seq<char>, toml::Value)>::empty());
                }
                Ok(d)
            }
            Shape::Other(_v) => Err(Error::UnexpectedShape),
        }
    }

    /// Decodes one declaration from a raw manifest value.
    pub fn from_value(v: toml::Value) -> (r: Result<Dependency, Error>)
        ensures
            r is Ok <==> decode_spec(shape_of(v)) is Some,
            (r matches Ok(d) ==> Some(d@) == decode_spec(shape_of(v))),
            (r matches Ok(d) ==> dep_wf(d@)),
            (r matches Err(e) ==> e == Error::UnexpectedShape),
    {
        Dependency::decode_shape(toml_classify(v))
    }
}

/// What re-encoding a declaration into table form produces: the recognized
/// attributes first, each wrapping its string, with every `rest` entry
/// spliced in behind them unchanged — and nothing at all for an absent
/// attribute.
pub open spec fn encodes(d: DepSpec, es: Seq<(Seq<char>, toml::Value)>) -> bool {
    let vn: int = if d.version is Some {
        1
    } else {
        0
    };
    let pn: int = if d.path is Some {
        1
    } else {
        0
    };
    &&& es.len() == vn + pn + d.rest.len()
    &&& (d.version matches Some(s) ==> es[0].0 == "version"@ && shape_of(es[0].1)
        == ShapeSpec::Str(s))
    &&& (d.path matches Some(p) ==> es[vn].0 == "path"@ && shape_of(es[vn].1) == ShapeSpec::Str(p))
    &&& (forall|i: int|
        0 <= i < d.rest.len() ==> es[vn + pn + i] == #[trigger] d.rest[i])
}

impl Dependency {
    /// Re-encodes the declaration as the entries of a table, omitting
    /// absent attributes and splicing `rest` in at the same level.
    pub fn encode(self) -> (r: Vec<(String, toml::Value)>)
        ensures
            encodes(self@, raw_entries_view(r@)),
    {
        let ghost dv: DepSpec = self@;
        let Dependency { version, path, mut rest } = self;
        let mut out: Vec<(String, toml::Value)> = Vec::new();
        match version {
            Some(s) => {
                let ghost sv = s@;
                out.push((String::from_str("version"), toml_string(s)));
                proof {
                    reveal_strlit("version");
                    assert(raw_entries_view(out@)[0].0 == "version"@);
                    assert(shape_of(raw_entries_view(out@)[0].1) == ShapeSpec::Str(sv));
                }
            }
            None => {}
        }
        match path {
            Some(p) => {
                let ghost pv = p@;
                let ghost n = out.len();
                out.push((String::from_str("path"), toml_string(p)));
                proof {
                    reveal_strlit("path");
                    assert(raw_entries_view(out@)[n as int].0 == "path"@);
                    assert(shape_of(raw_entries_view(out@)[n as int].1) == ShapeSpec::Str(pv));
                }
            }
            None => {}
        }
        let ghost head = raw_entries_view(out@);
        out.append(&mut rest);
        proof {
            assert(raw_entries_view(out@) =~= head + dv.rest);
        }
        out
    }
}

/// Folding entries none of which is a recognized key only appends them to
/// `rest`.
proof fn lemma_fold_rest(acc: DepSpec, rest: Seq<(Seq<char>, toml::Value)>)
    requires
        forall|i: int|
            0 <= i < rest.len() ==> (#[trigger] rest[i]).0 != "version"@ && rest[i].0 != "path"@,
    ensures
        dep_fold(acc, rest) matches Some(d2)
            && d2 =~= (DepSpec { version: acc.version, path: acc.path, rest: acc.rest + rest }),
    decreases rest.len(),
{
    if rest.len() == 0 {
        assert(acc.rest + rest =~= acc.rest);
        assert(acc =~= (DepSpec { version: acc.version, path: acc.path, rest: acc.rest + rest }));
    } else {
        let acc2 = DepSpec { version: acc.version, path: acc.path, rest: acc.rest.push(rest[0]) };
        assert(dep_step(acc, rest[0].0, rest[0].1) == Some(acc2));
        lemma_fold_rest(acc2, rest.skip(1));
        assert(acc2.rest + rest.skip(1) =~= acc.rest + rest);
    }
}

/// Decoding what encoding produced restores the declaration: the round trip
/// is the identity on the whole attribute set, provided no `rest` key
/// shadows a recognized attribute.
pub proof fn lemma_encode_decode_roundtrip(d: DepSpec, es: Seq<(Seq<char>, toml::Value)>)
    requires
        dep_wf(d),
        encodes(d, es),
    ensures
        decode_spec(ShapeSpec::Table(es)) == Some(d),
{
    reveal_strlit("version");
    reveal_strlit("path");
    assert("version"@.len() == 7);
    assert("path"@.len() == 4);
    let vn: int = if d.version is Some {
        1
    } else {
        0
    };
    let pn: int = if d.path is Some {
        1
    } else {
        0
    };
    let acc2 = DepSpec { version: d.version, path: d.path, rest: Seq::empty() };
    let tail = es.skip(vn + pn);
    assert forall|i: int| 0 <= i < tail.len() implies (#[trigger] tail[i]) == d.rest[i] by {
        assert(es[vn + pn + i] == d.rest[i]);
    }
    assert(tail =~= d.rest);
    lemma_fold_rest(acc2, tail);
    let folded = dep_fold(acc2, tail)->0;
    assert(folded.rest =~= d.rest);
    assert(folded =~= d);
    if d.version is Some {
        if d.path is Some {
            let acc1 = DepSpec { version: d.version, path: None, rest: Seq::empty() };
            assert(dep_step(empty_dep(), es[0].0, es[0].1) == Some(acc1));
            assert(dep_fold(empty_dep(), es) == dep_fold(acc1, es.skip(1)));
            assert(es.skip(1)[0] == es[1]);
            assert(dep_step(acc1, es[1].0, es[1].1) == Some(acc2));
            assert(es.skip(1).len() > 0);
            assert(dep_fold(acc1, es.skip(1)) == dep_fold(acc2, es.skip(1).skip(1)));
            assert(es.skip(1).skip(1) =~= tail);
            assert(dep_fold(empty_dep(), es) == dep_fold(acc2, tail));
        } else {
            assert(dep_step(empty_dep(), es[0].0, es[0].1) == Some(acc2));
            assert(dep_fold(empty_dep(), es) == dep_fold(acc2, es.skip(1)));
            assert(es.skip(1) =~= tail);
            assert(dep_fold(empty_dep(), es) == dep_fold(acc2, tail));
        }
    } else {
        if d.path is Some {
            assert(dep_step(empty_dep(), es[0].0, es[0].1) == Some(acc2));
            assert(dep_fold(empty_dep(), es) == dep_fold(acc2, es.skip(1)));
            assert(es.skip(1) =~= tail);
            assert(dep_fold(empty_dep(), es) == dep_fold(acc2, tail));
        } else {
            assert(es =~= tail);
            assert(acc2 =~= empty_dep());
            assert(dep_fold(empty_dep(), es) == dep_fold(acc2, tail));
        }
    }
    assert(decode_spec(ShapeSpec::Table(es)) == Some(folded));
    assert(folded == d);
}

} // verus!

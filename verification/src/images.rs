//! Which inline images to load, and when: every image source is in at most one state
//! (loaded, loading, waiting for a free loader, or failed), and no more than
//! `MAX_CONCURRENT_LOADS` loads run at once. Reading and decoding the files is left to
//! the front end, which reports how many loads are running and which have finished.
use crate::themes::str_eq;
use vstd::prelude::*;

verus! {

/// How many images may load at the same time.
pub const MAX_CONCURRENT_LOADS: usize = 4;

/// The names held by a list of strings.
pub open spec fn names(v: Seq<String>) -> Seq<Seq<char>> {
    Seq::new(v.len(), |i: int| v[i]@)
}

/// What became of an image source asked for.
#[derive(Clone, Copy, Debug, PartialEq, Eq, Structural)]
pub enum LoadStep {
    /// It was already loaded, loading, waiting or failed: nothing changes.
    Known,
    /// Its file may not be read: it failed.
    Refused,
    /// A loader is free: start loading it now.
    Start,
    /// All loaders are busy: it waits its turn.
    Wait,
}

/// The state of every image source asked for.
pub struct ImageLoads {
    pub loaded: Vec<String>,
    pub loading: Vec<String>,
    /// Oldest first.
    pub waiting: Vec<String>,
    pub failed: Vec<String>,
}

/// Whether `s` is among the names of `v`.
pub open spec fn holds(v: Seq<String>, s: Seq<char>) -> bool {
    names(v).contains(s)
}

/// Each name occurs once.
pub open spec fn distinct(v: Seq<String>) -> bool {
    forall|i: int, j: int| 0 <= i < j < v.len() ==> v[i]@ != v[j]@
}

fn holds_name(v: &Vec<String>, s: &str) -> (b: bool)
    ensures
        b == holds(v@, s@),
{
    let mut i: usize = 0;
    while i < v.len()
        invariant
            i <= v@.len(),
            forall|j: int| 0 <= j < i ==> v@[j]@ != s@,
        decreases v@.len() - i,
    {
        if str_eq(v[i].as_str(), s) {
            assert(names(v@)[i as int] == s@);
            return true;
        }
        i = i + 1;
    }
    assert forall|j: int| 0 <= j < names(v@).len() implies names(v@)[j] != s@ by {
        assert(names(v@)[j] == v@[j]@);
    }
    false
}

fn owned(s: &str) -> (r: String)
    ensures
        r@ == s@,
{
    let mut r = String::new();
    crate::text::push_str(&mut r, s);
    r
}

/// Adding a name not yet held keeps a list's names distinct, and the list then holds
/// exactly its old names and the new one.
proof fn lemma_push_name(v: Seq<String>, x: String)
    requires
        distinct(v),
        !holds(v, x@),
    ensures
        distinct(v.push(x)),
        forall|s: Seq<char>| holds(v.push(x), s) <==> (holds(v, s) || s == x@),
{
    let w = v.push(x);
    assert(names(w) =~= names(v).push(x@));
    assert forall|i: int, j: int| 0 <= i < j < w.len() implies w[i]@ != w[j]@ by {
        if j == v.len() {
            assert(names(v)[i] == v[i]@);
        }
    }
    assert forall|s: Seq<char>| holds(w, s) <==> (holds(v, s) || s == x@) by {
        if holds(w, s) {
            let i = choose|i: int| 0 <= i < names(w).len() && names(w)[i] == s;
            if i < v.len() {
                assert(names(v)[i] == s);
            }
        }
        if holds(v, s) {
            let i = choose|i: int| 0 <= i < names(v).len() && names(v)[i] == s;
            assert(names(w)[i] == s);
        }
        if s == x@ {
            assert(names(w)[v.len() as int] == s);
        }
    }
}

/// Where `s` is among the names of `v`, if anywhere.
fn position(v: &Vec<String>, s: &str) -> (r: Option<usize>)
    ensures
        r matches Some(k) ==> k < v@.len() && v@[k as int]@ == s@,
        r is None ==> !holds(v@, s@),
{
    let mut i: usize = 0;
    while i < v.len()
        invariant
            i <= v@.len(),
            forall|j: int| 0 <= j < i ==> v@[j]@ != s@,
        decreases v@.len() - i,
    {
        if str_eq(v[i].as_str(), s) {
            return Some(i);
        }
        i = i + 1;
    }
    assert forall|j: int| 0 <= j < names(v@).len() implies names(v@)[j] != s@ by {
        assert(names(v@)[j] == v@[j]@);
    }
    None
}

/// Taking out the name at `k` keeps a list's names distinct, and the list then holds
/// exactly its old names but that one.
proof fn lemma_remove_name(v: Seq<String>, k: int)
    requires
        distinct(v),
        0 <= k < v.len(),
    ensures
        distinct(v.remove(k)),
        forall|s: Seq<char>| holds(v.remove(k), s) <==> (holds(v, s) && s != v[k]@),
{
    let r = v.remove(k);
    assert forall|i: int, j: int| 0 <= i < j < r.len() implies r[i]@ != r[j]@ by {
        let a = if i < k { i } else { i + 1 };
        let b = if j < k { j } else { j + 1 };
        assert(r[i] == v[a] && r[j] == v[b]);
    }
    assert forall|s: Seq<char>| holds(r, s) <==> (holds(v, s) && s != v[k]@) by {
        if holds(r, s) {
            let i = choose|i: int| 0 <= i < names(r).len() && names(r)[i] == s;
            let a = if i < k { i } else { i + 1 };
            assert(names(v)[a] == s);
            assert(a != k);
        }
        if holds(v, s) && s != v[k]@ {
            let a = choose|a: int| 0 <= a < names(v).len() && names(v)[a] == s;
            let i = if a < k { a } else { a - 1 };
            assert(a != k);
            assert(names(r)[i] == s);
        }
    }
}

/// `s` is in at most one of the four lists.
pub open spec fn apart(l: Seq<String>, p: Seq<String>, w: Seq<String>, f: Seq<String>, s: Seq<char>) -> bool {
    &&& !(holds(l, s) && holds(p, s))
    &&& !(holds(l, s) && holds(w, s))
    &&& !(holds(l, s) && holds(f, s))
    &&& !(holds(p, s) && holds(w, s))
    &&& !(holds(p, s) && holds(f, s))
    &&& !(holds(w, s) && holds(f, s))
}

impl ImageLoads {
    /// Whether `s` has been asked for: it is loaded, loading, waiting or failed.
    pub open spec fn spec_known(&self, s: Seq<char>) -> bool {
        holds(self.loaded@, s) || holds(self.loading@, s) || holds(self.waiting@, s) || holds(self.failed@, s)
    }

    /// Every source is in at most one state, and once in it.
    pub open spec fn wf(&self) -> bool {
        &&& distinct(self.loaded@)
        &&& distinct(self.loading@)
        &&& distinct(self.waiting@)
        &&& distinct(self.failed@)
        &&& forall|s: Seq<char>| #[trigger] apart(self.loaded@, self.loading@, self.waiting@, self.failed@, s)
    }

    /// Nothing asked for yet.
    pub fn new() -> (l: ImageLoads)
        ensures
            l.wf(),
            l.loaded@.len() == 0 && l.loading@.len() == 0 && l.waiting@.len() == 0 && l.failed@.len() == 0,
    {
        let l = ImageLoads { loaded: Vec::new(), loading: Vec::new(), waiting: Vec::new(), failed: Vec::new() };
        assert(names(l.loaded@) =~= Seq::<Seq<char>>::empty());
        assert(names(l.loading@) =~= Seq::<Seq<char>>::empty());
        assert(names(l.waiting@) =~= Seq::<Seq<char>>::empty());
        assert(names(l.failed@) =~= Seq::<Seq<char>>::empty());
        l
    }

    /// Whether `src` has been asked for.
    pub fn is_known(&self, src: &str) -> (b: bool)
        ensures
            b == self.spec_known(src@),
    {
        holds_name(&self.loaded, src) || holds_name(&self.loading, src) || holds_name(&self.waiting, src)
            || holds_name(&self.failed, src)
    }

    /// Whether `src` is loading.
    pub fn is_loading(&self, src: &str) -> (b: bool)
        ensures
            b == holds(self.loading@, src@),
    {
        holds_name(&self.loading, src)
    }

    /// Asks for `src`, whose file may be read where `allowed`, while `active` loads run:
    /// a source already asked for is left as it is; one that may not be read fails;
    /// otherwise it starts loading where fewer than `MAX_CONCURRENT_LOADS` loads run,
    /// and waits its turn where not.
    pub fn request(&mut self, src: &str, allowed: bool, active: usize) -> (step: LoadStep)
        requires
            old(self).wf(),
        ensures
            final(self).wf(),
            final(self).spec_known(src@),
            old(self).spec_known(src@) ==> step == LoadStep::Known && *final(self) == *old(self),
            !old(self).spec_known(src@) && !allowed ==> step == LoadStep::Refused
                && names(final(self).failed@) == names(old(self).failed@).push(src@)
                && final(self).loaded == old(self).loaded && final(self).loading == old(self).loading
                && final(self).waiting == old(self).waiting,
            !old(self).spec_known(src@) && allowed && active < MAX_CONCURRENT_LOADS ==> step == LoadStep::Start
                && names(final(self).loading@) == names(old(self).loading@).push(src@)
                && final(self).loaded == old(self).loaded && final(self).waiting == old(self).waiting
                && final(self).failed == old(self).failed,
            !old(self).spec_known(src@) && allowed && active >= MAX_CONCURRENT_LOADS ==> step == LoadStep::Wait
                && names(final(self).waiting@) == names(old(self).waiting@).push(src@)
                && final(self).loaded == old(self).loaded && final(self).loading == old(self).loading
                && final(self).failed == old(self).failed,
    {
        if self.is_known(src) {
            return LoadStep::Known;
        }
        let name = owned(src);
        let ghost (l0, p0, w0, f0) = (self.loaded@, self.loading@, self.waiting@, self.failed@);
        if !allowed {
            proof {
                lemma_push_name(self.failed@, name);
            }
            self.failed.push(name);
            assert(names(self.failed@) =~= names(old(self).failed@).push(src@));
            proof {
                assert forall|t: Seq<char>| #[trigger] apart(self.loaded@, self.loading@, self.waiting@, self.failed@, t) by {
                    assert(apart(l0, p0, w0, f0, t));
                }
            }
            LoadStep::Refused
        } else if active < MAX_CONCURRENT_LOADS {
            proof {
                lemma_push_name(self.loading@, name);
            }
            self.loading.push(name);
            assert(names(self.loading@) =~= names(old(self).loading@).push(src@));
            proof {
                assert forall|t: Seq<char>| #[trigger] apart(self.loaded@, self.loading@, self.waiting@, self.failed@, t) by {
                    assert(apart(l0, p0, w0, f0, t));
                }
            }
            LoadStep::Start
        } else {
            proof {
                lemma_push_name(self.waiting@, name);
            }
            self.waiting.push(name);
            assert(names(self.waiting@) =~= names(old(self).waiting@).push(src@));
            proof {
                assert forall|t: Seq<char>| #[trigger] apart(self.loaded@, self.loading@, self.waiting@, self.failed@, t) by {
                    assert(apart(l0, p0, w0, f0, t));
                }
            }
            return LoadStep::Wait;
        }
    }

    /// Takes the result of loading `src`: it is no longer loading, and is loaded where
    /// `ok`, failed where not.
    pub fn finish(&mut self, src: &str, ok: bool)
        requires
            old(self).wf(),
            holds(old(self).loading@, src@),
        ensures
            final(self).wf(),
            forall|s: Seq<char>| holds(final(self).loading@, s) <==> (holds(old(self).loading@, s) && s != src@),
            ok ==> names(final(self).loaded@) == names(old(self).loaded@).push(src@) && final(self).failed == old(self).failed,
            !ok ==> names(final(self).failed@) == names(old(self).failed@).push(src@) && final(self).loaded == old(self).loaded,
            final(self).waiting == old(self).waiting,
    {
        let k = match position(&self.loading, src) {
            Some(k) => k,
            None => {
                return;
            },
        };
        proof {
            lemma_remove_name(self.loading@, k as int);
            assert(apart(old(self).loaded@, old(self).loading@, old(self).waiting@, old(self).failed@, src@));
        }
        let name = self.loading.remove(k);
        assert(name@ == src@);
        if ok {
            proof {
                lemma_push_name(self.loaded@, name);
            }
            self.loaded.push(name);
            assert(names(self.loaded@) =~= names(old(self).loaded@).push(src@));
        } else {
            proof {
                lemma_push_name(self.failed@, name);
            }
            self.failed.push(name);
            assert(names(self.failed@) =~= names(old(self).failed@).push(src@));
        }
        assert forall|t: Seq<char>| #[trigger] apart(self.loaded@, self.loading@, self.waiting@, self.failed@, t) by {
            assert(apart(old(self).loaded@, old(self).loading@, old(self).waiting@, old(self).failed@, t));
            assert(apart(old(self).loaded@, old(self).loading@, old(self).waiting@, old(self).failed@, src@));
        }
    }

    /// The oldest waiting source, now loading, where fewer than `MAX_CONCURRENT_LOADS`
    /// loads run (`active`); none where all loaders are busy or none waits.
    pub fn next_waiting(&mut self, active: usize) -> (r: Option<String>)
        requires
            old(self).wf(),
        ensures
            final(self).wf(),
            old(self).waiting@.len() == 0 || active >= MAX_CONCURRENT_LOADS ==> r is None && *final(self) == *old(self),
            old(self).waiting@.len() > 0 && active < MAX_CONCURRENT_LOADS ==> (r matches Some(s) && s@ == old(self).waiting@[0]@
                && names(final(self).waiting@) == names(old(self).waiting@).drop_first()
                && names(final(self).loading@) == names(old(self).loading@).push(s@)
                && final(self).loaded == old(self).loaded && final(self).failed == old(self).failed),
    {
        if self.waiting.len() == 0 || active >= MAX_CONCURRENT_LOADS {
            return None;
        }
        let ghost first = self.waiting@[0];
        assert(holds(self.waiting@, first@)) by {
            assert(names(self.waiting@)[0] == first@);
        }
        proof {
            lemma_remove_name(self.waiting@, 0);
            assert(apart(self.loaded@, self.loading@, self.waiting@, self.failed@, first@));
        }
        let name = self.waiting.remove(0);
        assert(!holds(self.loading@, name@));
        let out = owned(name.as_str());
        proof {
            lemma_push_name(self.loading@, name);
        }
        self.loading.push(name);
        assert(names(self.waiting@) =~= names(old(self).waiting@).drop_first());
        assert(names(self.loading@) =~= names(old(self).loading@).push(out@));
        assert forall|t: Seq<char>| #[trigger] apart(self.loaded@, self.loading@, self.waiting@, self.failed@, t) by {
            assert(apart(old(self).loaded@, old(self).loading@, old(self).waiting@, old(self).failed@, t));
            assert(apart(old(self).loaded@, old(self).loading@, old(self).waiting@, old(self).failed@, first@));
        }
        Some(out)
    }
}

/// Where an image source points: an absolute path, a path under the home directory
/// (`~/`), or a path relative to the document's folder.
#[derive(Clone, Copy, Debug, PartialEq, Eq, Structural)]
pub enum SourceKind {
    Absolute,
    InHome,
    Relative,
}

/// Where an image source points: absolute where it starts with `/`, under home where it
/// starts with `~/`, else relative.
pub open spec fn spec_source_kind(src: Seq<char>) -> SourceKind {
    if src.len() > 0 && src[0] == '/' {
        SourceKind::Absolute
    } else if src.len() >= 2 && src[0] == '~' && src[1] == '/' {
        SourceKind::InHome
    } else {
        SourceKind::Relative
    }
}

/// Where an image source points.
pub fn source_kind(src: &str) -> (k: SourceKind)
    ensures
        k == spec_source_kind(src@),
{
    let v = crate::text::chars_of(src);
    if v.len() > 0 && v[0] == '/' {
        SourceKind::Absolute
    } else if v.len() >= 2 && v[0] == '~' && v[1] == '/' {
        SourceKind::InHome
    } else {
        SourceKind::Relative
    }
}

} // verus!

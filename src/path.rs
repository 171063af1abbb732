use vstd::prelude::*;

verus! {

/// The model of a path: its components, in order.
pub type PathModel = Seq<Seq<char>>;

/// A filesystem path held as its list of components (`/a/b/c.txt` is
/// `["/", "a", "b", "c.txt"]`), so that prefix tests and joins are exact.
pub struct FsPath {
    pub parts: Vec<String>,
}

impl View for FsPath {
    type V = PathModel;

    open spec fn view(&self) -> PathModel {
        self.parts@.map_values(|c: String| c@)
    }
}

/// `base` is a leading run of components of `p`.
pub open spec fn is_under(p: PathModel, base: PathModel) -> bool {
    base.is_prefix_of(p)
}

/// The components of `p` after those of `base`.
pub open spec fn rel_to(p: PathModel, base: PathModel) -> PathModel {
    p.subrange(base.len() as int, p.len() as int)
}

/// `p` is one of the paths in `ps`.
pub open spec fn has_path(ps: Seq<FsPath>, p: PathModel) -> bool {
    exists|i: int| 0 <= i < ps.len() && (#[trigger] ps[i])@ == p
}

impl FsPath {
    /// A path made of the given components.
    pub fn new(parts: Vec<String>) -> (r: FsPath)
        ensures
            r.parts@ == parts@,
    {
        FsPath { parts }
    }

    /// The number of components.
    pub fn len(&self) -> (r: usize)
        ensures
            r == self@.len(),
    {
        self.parts.len()
    }

    /// A copy of this path.
    pub fn duplicate(&self) -> (r: FsPath)
        ensures
            r@ == self@,
    {
        let mut parts: Vec<String> = Vec::new();
        let mut i: usize = 0;
        while i < self.parts.len()
            invariant
                i <= self.parts.len(),
                parts@.len() == i,
                forall|k: int| 0 <= k < i ==> (#[trigger] parts@[k])@ == self.parts@[k]@,
            decreases self.parts.len() - i,
        {
            parts.push(self.parts[i].clone());
            i = i + 1;
        }
        let r = FsPath { parts };
        assert(r@ =~= self@);
        r
    }

    /// Whether two paths have the same components.
    pub fn same_as(&self, other: &FsPath) -> (r: bool)
        ensures
            r == (self@ == other@),
    {
        if self.parts.len() != other.parts.len() {
            proof {
                assert(self@.len() != other@.len());
            }
            return false;
        }
        let mut i: usize = 0;
        while i < self.parts.len()
            invariant
                i <= self.parts.len(),
                self.parts.len() == other.parts.len(),
                forall|k: int| 0 <= k < i ==> self@[k] == other@[k],
            decreases self.parts.len() - i,
        {
            if self.parts[i] != other.parts[i] {
                proof {
                    assert(self@[i as int] != other@[i as int]);
                }
                return false;
            }
            i = i + 1;
        }
        assert(self@ =~= other@);
        true
    }

    /// The path of `self` relative to `base`, or `None` where `self` does
    /// not lie under `base`.
    pub fn relative_to(&self, base: &FsPath) -> (r: Option<FsPath>)
        ensures
            r is Some <==> is_under(self@, base@),
            r is Some ==> r->0@ == rel_to(self@, base@),
    {
        let n = base.parts.len();
        if n > self.parts.len() {
            return None;
        }
        let mut i: usize = 0;
        while i < n
            invariant
                n == base@.len(),
                n <= self@.len(),
                i <= n,
                forall|k: int| 0 <= k < i ==> self@[k] == base@[k],
            decreases n - i,
        {
            if self.parts[i] != base.parts[i] {
                proof {
                    assert(self@[i as int] != base@[i as int]);
                }
                return None;
            }
            i = i + 1;
        }
        let mut parts: Vec<String> = Vec::new();
        let mut j: usize = n;
        while j < self.parts.len()
            invariant
                n <= j <= self.parts.len(),
                parts@.len() == j - n,
                forall|k: int| 0 <= k < j - n ==> (#[trigger] parts@[k])@ == self@[k + n],
            decreases self.parts.len() - j,
        {
            parts.push(self.parts[j].clone());
            j = j + 1;
        }
        let r = FsPath { parts };
        assert(base@ =~= self@.subrange(0, n as int));
        assert(r@ =~= rel_to(self@, base@));
        Some(r)
    }

    /// `self` followed by the components of `rel`.
    pub fn join(&self, rel: &FsPath) -> (r: FsPath)
        ensures
            r@ == self@ + rel@,
    {
        let mut parts: Vec<String> = Vec::new();
        let mut i: usize = 0;
        while i < self.parts.len()
            invariant
                i <= self.parts.len(),
                parts@.len() == i,
                forall|k: int| 0 <= k < i ==> (#[trigger] parts@[k])@ == self@[k],
            decreases self.parts.len() - i,
        {
            parts.push(self.parts[i].clone());
            i = i + 1;
        }
        let mut j: usize = 0;
        while j < rel.parts.len()
            invariant
                j <= rel.parts.len(),
                parts@.len() == self.parts.len() + j,
                forall|k: int| 0 <= k < self.parts.len() ==> (#[trigger] parts@[k])@ == self@[k],
                forall|k: int|
                    self.parts.len() <= k < self.parts.len() + j ==> (#[trigger] parts@[k])@
                        == rel@[k - self.parts.len()],
            decreases rel.parts.len() - j,
        {
            parts.push(rel.parts[j].clone());
            j = j + 1;
        }
        let r = FsPath { parts };
        assert(r@ =~= self@ + rel@);
        r
    }

    /// The path without its last component, or `None` for an empty path.
    pub fn parent(&self) -> (r: Option<FsPath>)
        ensures
            r is Some <==> self@.len() > 0,
            r is Some ==> r->0@ == self@.drop_last(),
    {
        if self.parts.len() == 0 {
            return None;
        }
        let last = self.parts.len() - 1;
        let mut parts: Vec<String> = Vec::new();
        let mut i: usize = 0;
        while i < last
            invariant
                last == self.parts.len() - 1,
                i <= last,
                parts@.len() == i,
                forall|k: int| 0 <= k < i ==> (#[trigger] parts@[k])@ == self@[k],
            decreases last - i,
        {
            parts.push(self.parts[i].clone());
            i = i + 1;
        }
        let r = FsPath { parts };
        assert(r@ =~= self@.drop_last());
        Some(r)
    }
}

/// Whether `p` is one of `ps`.
pub fn contains_path(ps: &Vec<FsPath>, p: &FsPath) -> (r: bool)
    ensures
        r == has_path(ps@, p@),
{
    let mut i: usize = 0;
    while i < ps.len()
        invariant
            i <= ps.len(),
            forall|k: int| 0 <= k < i ==> ps@[k]@ != p@,
        decreases ps.len() - i,
    {
        if ps[i].same_as(p) {
            return true;
        }
        i = i + 1;
    }
    false
}

} // verus!

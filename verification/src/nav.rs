use vstd::prelude::*;

verus! {

///////////////////////////////////////////////////////////////////////////////
// PATH MISC.
///////////////////////////////////////////////////////////////////////////////

/// One segment of a URL path pattern: literal text, a wildcard, or a
/// binder a matcher fills from the path.
#[derive(Debug, PartialEq)]
pub enum PathSegment {
    Static(String),
    Wildcard,
    Binder,
}

impl Clone for PathSegment {
    fn clone(&self) -> (r: Self)
        ensures
            r == *self,
    {
        match self {
            PathSegment::Static(x) => PathSegment::Static(x.clone()),
            PathSegment::Wildcard => PathSegment::Wildcard,
            PathSegment::Binder => PathSegment::Binder,
        }
    }
}

impl PathSegment {
    pub fn unpack_string(&self) -> (r: Option<String>)
        ensures
            match *self {
                PathSegment::Static(x) => r matches Some(s) && s@ == x@,
                _ => r is None,
            },
    {
        match self {
            PathSegment::Static(x) => Some(x.clone()),
            _ => None,
        }
    }
}

/// A parsed URL path: its segments in order.
#[derive(Debug, PartialEq)]
pub struct UrlPath(Vec<PathSegment>);

impl View for UrlPath {
    type V = Seq<PathSegment>;

    closed spec fn view(&self) -> Seq<PathSegment> {
        self.0@
    }
}

/// The text segments of a path: the characters before the first question
/// mark, split at every slash, empty pieces dropped.  `cur` carries the
/// piece being read.
pub open spec fn segs_from(s: Seq<char>, cur: Seq<char>) -> Seq<Seq<char>>
    decreases s.len(),
{
    let flushed: Seq<Seq<char>> = if cur.len() > 0 {
        seq![cur]
    } else {
        Seq::empty()
    };
    if s.len() == 0 {
        flushed
    } else if s[0] == '?' {
        flushed
    } else if s[0] == '/' {
        flushed + segs_from(s.drop_first(), Seq::empty())
    } else {
        segs_from(s.drop_first(), cur.push(s[0]))
    }
}

/// The text segments a path string parses to.
pub open spec fn spec_path_texts(s: Seq<char>) -> Seq<Seq<char>> {
    segs_from(s, Seq::empty())
}

/// `r` is `texts`, each piece wrapped as a literal segment.
pub open spec fn segments_are(r: Seq<PathSegment>, texts: Seq<Seq<char>>) -> bool {
    &&& r.len() == texts.len()
    &&& forall|i: int|
        0 <= i < r.len() ==> (#[trigger] r[i] matches PathSegment::Static(x) && x@ == texts[i])
}

/// Whether two paths agree position by position, where a pair of literal
/// segments must read alike and any other pairing is accepted.
pub open spec fn seg_matches(x: PathSegment, y: PathSegment) -> bool {
    match (x, y) {
        (PathSegment::Static(s1), PathSegment::Static(s2)) => s1@ == s2@,
        _ => true,
    }
}

pub open spec fn spec_static_matches(a: Seq<PathSegment>, b: Seq<PathSegment>) -> bool {
    &&& a.len() == b.len()
    &&& forall|i: int| 0 <= i < a.len() ==> seg_matches(#[trigger] a[i], #[trigger] b[i])
}

fn segs_exec(s: &str, i: usize, n: usize, cur: String) -> (r: Vec<PathSegment>)
    requires
        n == s@.len(),
        i <= n,
    ensures
        segments_are(r@, segs_from(s@.subrange(i as int, n as int), cur@)),
    decreases n - i,
{
    let ghost suffix = s@.subrange(i as int, n as int);
    if i >= n {
        let mut r: Vec<PathSegment> = Vec::new();
        if cur.as_str().unicode_len() > 0 {
            r.push(PathSegment::Static(cur));
        }
        r
    } else {
        let c = s.get_char(i);
        proof {
            assert(suffix[0] == s@[i as int]);
            assert(suffix.drop_first() =~= s@.subrange(i + 1, n as int));
        }
        if c == '?' {
            let mut r: Vec<PathSegment> = Vec::new();
            if cur.as_str().unicode_len() > 0 {
                r.push(PathSegment::Static(cur));
            }
            r
        } else if c == '/' {
            let rest = segs_exec(s, i + 1, n, String::new());
            if cur.as_str().unicode_len() > 0 {
                let mut r: Vec<PathSegment> = Vec::new();
                r.push(PathSegment::Static(cur));
                let mut rest = rest;
                r.append(&mut rest);
                proof {
                    let want = segs_from(suffix, cur@);
                    assert(want =~= seq![cur@] + segs_from(suffix.drop_first(), Seq::empty()));
                    assert(segments_are(r@, want));
                }
                r
            } else {
                rest
            }
        } else {
            let piece = s.substring_char(i, i + 1);
            let mut cur2 = cur;
            let ghost cur0 = cur2@;
            cur2.append(piece);
            proof {
                assert(s@.subrange(i as int, i + 1) =~= seq![s@[i as int]]);
                assert(cur2@ =~= cur0.push(s@[i as int]));
            }
            segs_exec(s, i + 1, n, cur2)
        }
    }
}

impl UrlPath {
    /// Whether this is the root path, with no segments at all.
    pub fn is_index(&self) -> (r: bool)
        ensures
            r == (self@.len() == 0),
    {
        self.0.is_empty()
    }

    /// The segments, as an owned list.
    pub fn unpack(&self) -> (r: Vec<PathSegment>)
        ensures
            r@ == self@,
    {
        let mut r: Vec<PathSegment> = Vec::new();
        let mut i: usize = 0;
        while i < self.0.len()
            invariant
                i <= self.0@.len(),
                r@ == self.0@.subrange(0, i as int),
            decreases self.0@.len() - i,
        {
            r.push(self.0[i].clone());
            proof {
                assert(r@ =~= self.0@.subrange(0, i + 1));
            }
            i = i + 1;
        }
        proof {
            assert(self.0@.subrange(0, self.0@.len() as int) =~= self.0@);
        }
        r
    }

    /// Parses a path string: everything after the first question mark is
    /// dropped, the rest splits at slashes, and every non-empty piece
    /// becomes a literal segment.
    pub fn parse(path: String) -> (r: Self)
        ensures
            segments_are(r@, spec_path_texts(path@)),
    {
        let n = path.as_str().unicode_len();
        let segs = segs_exec(path.as_str(), 0, n, String::new());
        proof {
            assert(path@.subrange(0, n as int) =~= path@);
        }
        UrlPath(segs)
    }

    /// Wraps a ready-made segment list.
    pub fn from_segs(segs: Vec<PathSegment>) -> (r: Self)
        ensures
            r@ == segs@,
    {
        UrlPath(segs)
    }

    /// Whether two paths have the same length and agree on every pair of
    /// literal segments; wildcards and binders match anything.
    pub fn static_matches(r1: &UrlPath, r2: &UrlPath) -> (r: bool)
        ensures
            r == spec_static_matches(r1@, r2@),
    {
        if r1.0.len() != r2.0.len() {
            return false;
        }
        let mut i: usize = 0;
        while i < r1.0.len()
            invariant
                r1.0@.len() == r2.0@.len(),
                i <= r1.0@.len(),
                forall|j: int| 0 <= j < i ==> seg_matches(#[trigger] r1.0@[j], #[trigger] r2.0@[j]),
            decreases r1.0@.len() - i,
        {
            let ok = match (&r1.0[i], &r2.0[i]) {
                (PathSegment::Static(s1), PathSegment::Static(s2)) => crate::text::string_eq_string(
                    s1,
                    s2,
                ),
                _ => true,
            };
            if !ok {
                return false;
            }
            i = i + 1;
        }
        true
    }
}

} // verus!

//! A request and its path cursor: the target path as a sequence of segments
//! that routing consumes one segment at a time.
use vstd::prelude::*;
use crate::text::chars_of;

verus! {

/// The HTTP verb of a request.
#[derive(Debug, Clone, PartialEq, Eq)]
pub enum Method {
    Options,
    Get,
    Post,
    Put,
    Delete,
    Head,
    Trace,
    Connect,
    Patch,
    Extension(String),
}

/// The characters of each segment.
pub open spec fn segs_view(segs: Seq<String>) -> Seq<Seq<char>> {
    segs.map_values(|s: String| s@)
}

/// The pieces of `s` between slashes, as `str::split('/')` gives them: one
/// more than there are slashes.
pub open spec fn split_slash(s: Seq<char>) -> Seq<Seq<char>>
    decreases s.len(),
{
    if s.len() == 0 {
        seq![Seq::empty()]
    } else {
        let prev = split_slash(s.drop_last());
        if s.last() == '/' {
            prev.push(Seq::empty())
        } else {
            prev.update(prev.len() - 1, prev.last().push(s.last()))
        }
    }
}

/// The segments left after `.` and `..`: a `.` is dropped, a `..` removes
/// the segment before it. A `..` with nothing before it has no result.
pub open spec fn normalize(segs: Seq<Seq<char>>) -> Option<Seq<Seq<char>>>
    decreases segs.len(),
{
    if segs.len() == 0 {
        Some(Seq::empty())
    } else {
        match normalize(segs.drop_last()) {
            None => None,
            Some(acc) => normalize_step(acc, segs.last()),
        }
    }
}

/// One segment of `normalize`.
pub open spec fn normalize_step(acc: Seq<Seq<char>>, seg: Seq<char>) -> Option<Seq<Seq<char>>> {
    if seg == seq!['.', '.'] {
        if acc.len() == 0 {
            None
        } else {
            Some(acc.drop_last())
        }
    } else if seg == seq!['.'] {
        Some(acc)
    } else {
        Some(acc.push(seg))
    }
}

/// The segments of a target path. A path that starts with `/` is split at
/// each further `/` and normalized; any other path has no segments.
pub open spec fn path_segments(path: Seq<char>) -> Option<Seq<Seq<char>>> {
    if path.len() > 0 && path[0] == '/' {
        normalize(split_slash(path.drop_first()))
    } else {
        Some(Seq::empty())
    }
}

/// `split_slash` always gives at least one piece.
proof fn lemma_split_slash_len(s: Seq<char>)
    ensures
        split_slash(s).len() >= 1,
    decreases s.len(),
{
    if s.len() > 0 {
        lemma_split_slash_len(s.drop_last());
    }
}

/// The pieces of a prefix of `s`, all but the last, start the pieces of `s`.
proof fn lemma_split_slash_prefix(s: Seq<char>, m: int)
    requires
        0 <= m <= s.len(),
    ensures
        split_slash(s.take(m)).len() <= split_slash(s).len(),
        split_slash(s.take(m)).drop_last() == split_slash(s).take(split_slash(s.take(m)).len() - 1),
    decreases s.len(),
{
    lemma_split_slash_len(s.take(m));
    lemma_split_slash_len(s);
    if m == s.len() {
        assert(s.take(m) =~= s);
        assert(split_slash(s).drop_last() =~= split_slash(s).take(split_slash(s).len() - 1));
    } else {
        let d = s.drop_last();
        assert(d.take(m) =~= s.take(m));
        lemma_split_slash_prefix(d, m);
        lemma_split_slash_len(d);
        let prev = split_slash(d);
        let a = split_slash(s.take(m));
        assert(split_slash(s).take(a.len() - 1) =~= prev.take(a.len() - 1));
    }
}

/// When a prefix of the segments has no normal form, neither have they.
proof fn lemma_normalize_prefix_fails(segs: Seq<Seq<char>>, k: int)
    requires
        0 <= k <= segs.len(),
        normalize(segs.take(k)) is None,
    ensures
        normalize(segs) is None,
    decreases segs.len(),
{
    if k == segs.len() {
        assert(segs.take(k) =~= segs);
    } else {
        assert(segs.drop_last().take(k) =~= segs.take(k));
        lemma_normalize_prefix_fails(segs.drop_last(), k);
    }
}

/// Applies one segment of `normalize` to `acc`; false when a `..` has
/// nothing to remove.
fn push_segment(acc: &mut Vec<String>, t: &Vec<char>, path: &str, a: usize, b: usize) -> (ok: bool)
    requires
        a <= b <= t@.len(),
        t@ == path@,
    ensures
        match normalize_step(segs_view(old(acc)@), t@.subrange(a as int, b as int)) {
            Some(next) => ok && segs_view(final(acc)@) == next,
            None => !ok,
        },
{
    let ghost seg = t@.subrange(a as int, b as int);
    let is_up = b - a == 2 && t[a] == '.' && t[a + 1] == '.';
    let is_here = b - a == 1 && t[a] == '.';
    proof {
        let up = seq!['.', '.'];
        let here = seq!['.'];
        if is_up {
            assert(seg =~= up);
        }
        if seg == up {
            assert(seg.len() == 2 && seg[0] == '.' && seg[1] == '.');
        }
        if is_here {
            assert(seg =~= here);
        }
        if seg == here {
            assert(seg.len() == 1 && seg[0] == '.');
        }
    }
    if is_up {
        match acc.pop() {
            Some(_) => {
                proof {
                    assert(segs_view(acc@) =~= segs_view(old(acc)@).drop_last());
                }
                true
            },
            None => false,
        }
    } else if is_here {
        true
    } else {
        acc.push(path.substring_char(a, b).to_owned());
        proof {
            assert(segs_view(acc@) =~= segs_view(old(acc)@).push(seg));
        }
        true
    }
}

/// The segments of a target path; see `path_segments`.
pub fn collect_path_segs(path: &str) -> (r: Option<Vec<String>>)
    ensures
        match path_segments(path@) {
            Some(segs) => r is Some && segs_view(r->0@) == segs,
            None => r is None,
        },
{
    let t = chars_of(path);
    let mut rv: Vec<String> = Vec::new();
    if t.len() == 0 || t[0] != '/' {
        proof {
            assert(segs_view(rv@) =~= Seq::<Seq<char>>::empty());
        }
        return Some(rv);
    }
    let ghost mut done: Seq<Seq<char>> = Seq::empty();
    let mut start: usize = 1;
    let mut i: usize = 1;
    proof {
        assert(t@.subrange(1, 1) =~= Seq::<char>::empty());
        assert(segs_view(rv@) =~= Seq::<Seq<char>>::empty());
        assert(split_slash(t@.subrange(1, 1)) =~= done.push(t@.subrange(1, 1)));
    }
    while i < t.len()
        invariant
            t@ == path@,
            t@.len() > 0 && t@[0] == '/',
            1 <= start <= i <= t@.len(),
            split_slash(t@.subrange(1, i as int)) == done.push(t@.subrange(start as int, i as int)),
            normalize(done) == Some(segs_view(rv@)),
        decreases t@.len() - i,
    {
        let ghost q = t@.subrange(1, i as int + 1);
        proof {
            assert(q.drop_last() =~= t@.subrange(1, i as int));
            assert(q.last() == t@[i as int]);
        }
        if t[i] == '/' {
            let ghost seg = t@.subrange(start as int, i as int);
            if !push_segment(&mut rv, &t, path, start, i) {
                proof {
                    let whole = t@.subrange(1, t@.len() as int);
                    assert(whole.take(i as int) =~= t@.subrange(1, i as int + 1));
                    lemma_split_slash_prefix(whole, i as int);
                    let pieces = split_slash(whole.take(i as int));
                    assert(pieces.drop_last() =~= done.push(seg));
                    assert(done.push(seg).drop_last() =~= done);
                    assert(split_slash(whole).take(done.len() + 1 as int) == done.push(seg));
                    lemma_normalize_prefix_fails(split_slash(whole), done.len() + 1 as int);
                    assert(path@.drop_first() =~= whole);
                }
                return None;
            }
            proof {
                assert(done.push(seg).drop_last() =~= done);
                done = done.push(seg);
                assert(t@.subrange(i as int + 1, i as int + 1) =~= Seq::<char>::empty());
            }
            start = i + 1;
        } else {
            proof {
                assert(t@.subrange(start as int, i as int + 1) =~= t@.subrange(start as int, i as int).push(t@[i as int]));
                assert(done.push(t@.subrange(start as int, i as int)).update(done.len() as int, t@.subrange(start as int, i as int + 1))
                    =~= done.push(t@.subrange(start as int, i as int + 1)));
            }
        }
        i = i + 1;
    }
    let ghost seg = t@.subrange(start as int, t@.len() as int);
    if !push_segment(&mut rv, &t, path, start, t.len()) {
        proof {
            assert(done.push(seg).drop_last() =~= done);
            assert(path@.drop_first() =~= t@.subrange(1, t@.len() as int));
        }
        return None;
    }
    proof {
        assert(done.push(seg).drop_last() =~= done);
        assert(path@.drop_first() =~= t@.subrange(1, t@.len() as int));
    }
    Some(rv)
}

/// An inbound call: its verb, the part of its target path that is not routed
/// yet, its headers and its body.
#[derive(Debug, PartialEq, Eq)]
pub struct Request {
    method: Method,
    path_segs: Vec<String>,
    headers: Vec<(String, String)>,
    body: Vec<u8>,
}

impl Request {
    /// The segments of the path that are left to route.
    pub closed spec fn path(&self) -> Seq<Seq<char>> {
        segs_view(self.path_segs@)
    }

    pub closed spec fn spec_method(&self) -> Method {
        self.method
    }

    pub closed spec fn spec_headers(&self) -> Seq<(String, String)> {
        self.headers@
    }

    pub closed spec fn spec_body(&self) -> Seq<u8> {
        self.body@
    }

    /// The two requests differ at most in their paths.
    pub open spec fn same_but_path(&self, other: Request) -> bool {
        &&& self.spec_method() == other.spec_method()
        &&& self.spec_headers() == other.spec_headers()
        &&& self.spec_body() == other.spec_body()
    }

    /// A request for the target path `path`, with no headers and an empty
    /// body; none when the path climbs above its root with `..`. The whole
    /// text is taken as the path: a caller holding a full URI passes its path
    /// component, since a query string would stay in the last segment.
    pub fn new(method: Method, path: &str) -> (r: Option<Request>)
        ensures
            match path_segments(path@) {
                Some(segs) => {
                    &&& r is Some
                    &&& r->0.path() == segs
                    &&& r->0.spec_method() == method
                    &&& r->0.spec_headers().len() == 0
                    &&& r->0.spec_body().len() == 0
                },
                None => r is None,
            },
    {
        match collect_path_segs(path) {
            Some(segs) => Some(Request::construct(method, segs)),
            None => None,
        }
    }

    /// A request with the given verb and path segments, no headers and an
    /// empty body.
    pub fn construct(method: Method, path_segs: Vec<String>) -> (r: Request)
        ensures
            r.spec_method() == method,
            r.path() == segs_view(path_segs@),
            r.spec_headers().len() == 0,
            r.spec_body().len() == 0,
    {
        Request { method, path_segs, headers: Vec::new(), body: Vec::new() }
    }

    pub fn with_headers(self, headers: Vec<(String, String)>) -> (r: Request)
        ensures
            r.spec_method() == self.spec_method(),
            r.path() == self.path(),
            r.spec_headers() == headers@,
            r.spec_body() == self.spec_body(),
    {
        Request { method: self.method, path_segs: self.path_segs, headers, body: self.body }
    }

    pub fn with_body(self, body: Vec<u8>) -> (r: Request)
        ensures
            r.spec_method() == self.spec_method(),
            r.path() == self.path(),
            r.spec_headers() == self.spec_headers(),
            r.spec_body() == body@,
    {
        Request { method: self.method, path_segs: self.path_segs, headers: self.headers, body }
    }

    pub fn method(&self) -> (r: &Method)
        ensures
            *r == self.spec_method(),
    {
        &self.method
    }

    pub fn headers(&self) -> (r: &[(String, String)])
        ensures
            r@ == self.spec_headers(),
    {
        self.headers.as_slice()
    }

    pub fn body(&self) -> (r: &[u8])
        ensures
            r@ == self.spec_body(),
    {
        self.body.as_slice()
    }

    /// The segments of the path that are left to route.
    pub fn path_segs(&self) -> (r: &[String])
        ensures
            segs_view(r@) == self.path(),
    {
        self.path_segs.as_slice()
    }

    /// Routes one segment. With `None`, the first segment is removed and
    /// returned; with `Some(s)`, only if it equals `s`. Otherwise, and when no
    /// segment is left, `None` comes back and the request is unchanged.
    pub fn route_seg(&mut self, seg: Option<&str>) -> (r: Option<String>)
        ensures
            ({
                let p = old(self).path();
                if p.len() > 0 && (seg is None || seg->0@ == p[0]) {
                    &&& r is Some
                    &&& r->0@ == p[0]
                    &&& final(self).path() == p.drop_first()
                    &&& final(self).same_but_path(*old(self))
                } else {
                    &&& r is None
                    &&& *final(self) == *old(self)
                }
            }),
    {
        if self.path_segs.len() == 0 {
            return None;
        }
        let matches = match seg {
            None => true,
            Some(s) => self.path_segs[0] == s.to_owned(),
        };
        if matches {
            let first = self.path_segs.remove(0);
            proof {
                assert(segs_view(self.path_segs@) =~= segs_view(old(self).path_segs@).drop_first());
            }
            Some(first)
        } else {
            None
        }
    }
}

} // verus!

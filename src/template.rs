//! Template variables and the substitution of processing instructions
//! (`<?var name?>`, `<?frag path?>`) in template text.
use vstd::prelude::*;
use crate::text::chars_of;

verus! {

/// No key occurs twice.
pub open spec fn distinct_keys(s: Seq<(String, String)>) -> bool {
    forall|i: int, j: int|
        0 <= i < s.len() && 0 <= j < s.len() && i != j ==> #[trigger] s[i].0@ != #[trigger] s[j].0@
}

/// Some entry has the key.
pub open spec fn holds_key(s: Seq<(String, String)>, k: Seq<char>) -> bool {
    exists|i: int| 0 <= i < s.len() && #[trigger] s[i].0@ == k
}

/// The map from each key to its value.
pub open spec fn map_of(s: Seq<(String, String)>) -> Map<Seq<char>, Seq<char>> {
    Map::new(
        |k: Seq<char>| holds_key(s, k),
        |k: Seq<char>| s[choose|i: int| 0 <= i < s.len() && #[trigger] s[i].0@ == k].1@,
    )
}

/// With distinct keys, the entry at `i` gives the value of its key.
proof fn lemma_map_of_at(s: Seq<(String, String)>, i: int)
    requires
        distinct_keys(s),
        0 <= i < s.len(),
    ensures
        map_of(s).contains_key(s[i].0@),
        map_of(s)[s[i].0@] == s[i].1@,
{
    let k = s[i].0@;
    assert(holds_key(s, k));
    let j = choose|j: int| 0 <= j < s.len() && #[trigger] s[j].0@ == k;
    assert(j == i);
}

/// Whitespace as `char::is_whitespace` has it: the characters with the
/// Unicode property White_Space.
pub open spec fn is_whitespace(c: char) -> bool {
    let u = c as u32;
    ||| u == 0x20
    ||| 0x09 <= u <= 0x0d
    ||| u == 0x85
    ||| u == 0xa0
    ||| u == 0x1680
    ||| 0x2000 <= u <= 0x200a
    ||| u == 0x2028
    ||| u == 0x2029
    ||| u == 0x202f
    ||| u == 0x205f
    ||| u == 0x3000
}

/// The text without leading whitespace.
pub open spec fn trim_start(s: Seq<char>) -> Seq<char>
    decreases s.len(),
{
    if s.len() > 0 && is_whitespace(s[0]) {
        trim_start(s.drop_first())
    } else {
        s
    }
}

/// The text without trailing whitespace.
pub open spec fn trim_end(s: Seq<char>) -> Seq<char>
    decreases s.len(),
{
    if s.len() > 0 && is_whitespace(s.last()) {
        trim_end(s.drop_last())
    } else {
        s
    }
}

/// The text without whitespace at either end.
pub open spec fn trim(s: Seq<char>) -> Seq<char> {
    trim_end(trim_start(s))
}

/// How far after `from` the characters `a`, `b` first stand side by side.
pub open spec fn find_pair(t: Seq<char>, a: char, b: char, from: int) -> Option<nat>
    decreases t.len() - from,
{
    if from < 0 || from + 1 >= t.len() {
        None
    } else if t[from] == a && t[from + 1] == b {
        Some(0)
    } else {
        match find_pair(t, a, b, from + 1) {
            Some(k) => Some(k + 1),
            None => None,
        }
    }
}

/// How far after `from` the first space stands.
pub open spec fn find_space(t: Seq<char>, from: int) -> Option<nat>
    decreases t.len() - from,
{
    if from < 0 || from >= t.len() {
        None
    } else if t[from] == ' ' {
        Some(0)
    } else {
        match find_space(t, from + 1) {
            Some(k) => Some(k + 1),
            None => None,
        }
    }
}

/// The value of `key`, or nothing.
pub open spec fn value_or_empty(m: Map<Seq<char>, Seq<char>>, key: Seq<char>) -> Seq<char> {
    if m.contains_key(key) {
        m[key]
    } else {
        Seq::empty()
    }
}

/// What the instruction between `<?` and `?>` stands for: `var NAME` the
/// variable's value, `frag PATH` the fragment's text, each empty where it is
/// missing; the name is trimmed of whitespace. `var` or `frag` without a space
/// after it is malformed. Any other instruction stands for nothing.
pub open spec fn instruction(vars: Map<Seq<char>, Seq<char>>, frags: Map<Seq<char>, Seq<char>>, inner: Seq<char>) -> Option<Seq<char>> {
    let word = match find_space(inner, 0) {
        Some(k) => inner.take(k as int),
        None => inner,
    };
    let arg = match find_space(inner, 0) {
        Some(k) => Some(inner.skip(k + 1 as int)),
        None => None,
    };
    if word == seq!['f', 'r', 'a', 'g'] || word == seq!['v', 'a', 'r'] {
        match arg {
            Some(a) => Some(value_or_empty(if word == seq!['v', 'a', 'r'] { vars } else { frags }, trim(a))),
            None => None,
        }
    } else {
        Some(Seq::empty())
    }
}

/// The template from `pos` on, with each instruction replaced. Text up to the
/// next `<?` is kept; the instruction ends at the first `?>` after it. There is
/// no result when a `<?` has no `?>` after it, when the two overlap (`<?>`),
/// or when an instruction is malformed.
pub open spec fn render(vars: Map<Seq<char>, Seq<char>>, frags: Map<Seq<char>, Seq<char>>, t: Seq<char>, pos: int) -> Option<Seq<char>>
    decreases t.len() - pos,
{
    if pos < 0 || pos > t.len() {
        None
    } else {
        match find_pair(t, '<', '?', pos) {
            None => Some(t.subrange(pos, t.len() as int)),
            Some(k1) => {
                let beg = pos + k1;
                match find_pair(t, '?', '>', beg) {
                    None => None,
                    Some(k2) => {
                        let end = beg + k2;
                        if k2 < 2 || end + 2 > t.len() {
                            None
                        } else {
                            match instruction(vars, frags, t.subrange(beg + 2, end)) {
                                None => None,
                                Some(piece) => match render(vars, frags, t, end + 2) {
                                    None => None,
                                    Some(tail) => Some(t.subrange(pos, beg) + piece + tail),
                                },
                            }
                        }
                    },
                }
            },
        }
    }
}

/// `o` moved on by `d`.
pub open spec fn shifted(o: Option<nat>, d: nat) -> Option<nat> {
    match o {
        Some(k) => Some(k + d),
        None => None,
    }
}

/// `text` in front of the result, if there is one.
pub open spec fn prefixed(text: Seq<char>, o: Option<Seq<char>>) -> Option<Seq<char>> {
    match o {
        Some(rest) => Some(text + rest),
        None => None,
    }
}

/// Exec form of `is_whitespace`.
fn is_ws(c: char) -> (r: bool)
    ensures
        r == is_whitespace(c),
{
    let u = c as u32;
    u == 0x20 || (0x09 <= u && u <= 0x0d) || u == 0x85 || u == 0xa0 || u == 0x1680
        || (0x2000 <= u && u <= 0x200a) || u == 0x2028 || u == 0x2029 || u == 0x202f
        || u == 0x205f || u == 0x3000
}

/// The first index at or after `from` where `a` then `b` stand.
fn find_pair_from(t: &Vec<char>, a: char, b: char, from: usize) -> (r: Option<usize>)
    requires
        from <= t@.len(),
    ensures
        match find_pair(t@, a, b, from as int) {
            Some(k) => r == Some((from + k) as usize) && from + k + 1 < t@.len(),
            None => r is None,
        },
{
    let mut i: usize = from;
    while i < t.len()
        invariant
            from <= i <= t@.len(),
            find_pair(t@, a, b, from as int) == shifted(find_pair(t@, a, b, i as int), (i - from) as nat),
        decreases t@.len() - i,
    {
        if i + 1 < t.len() && t[i] == a && t[i + 1] == b {
            return Some(i);
        }
        i = i + 1;
    }
    None
}

/// The first space in `t[a..b]`, as an index of `t`.
fn find_space_in(t: &Vec<char>, a: usize, b: usize) -> (r: Option<usize>)
    requires
        a <= b <= t@.len(),
    ensures
        match find_space(t@.subrange(a as int, b as int), 0) {
            Some(k) => r == Some((a + k) as usize) && a + k < b,
            None => r is None,
        },
{
    let ghost sub = t@.subrange(a as int, b as int);
    let mut i: usize = a;
    while i < b
        invariant
            a <= i <= b <= t@.len(),
            sub == t@.subrange(a as int, b as int),
            find_space(sub, 0) == shifted(find_space(sub, i - a), (i - a) as nat),
        decreases b - i,
    {
        if t[i] == ' ' {
            return Some(i);
        }
        i = i + 1;
    }
    None
}

/// The bounds of `t[a..b]` without whitespace at either end.
fn trim_range(t: &Vec<char>, a: usize, b: usize) -> (r: (usize, usize))
    requires
        a <= b <= t@.len(),
    ensures
        a <= r.0 <= r.1 <= b,
        t@.subrange(r.0 as int, r.1 as int) == trim(t@.subrange(a as int, b as int)),
{
    let mut lo: usize = a;
    while lo < b && is_ws(t[lo])
        invariant
            a <= lo <= b <= t@.len(),
            trim_start(t@.subrange(a as int, b as int)) == trim_start(t@.subrange(lo as int, b as int)),
        decreases b - lo,
    {
        assert(t@.subrange(lo as int, b as int).drop_first() =~= t@.subrange(lo + 1, b as int));
        lo = lo + 1;
    }
    assert(trim_start(t@.subrange(lo as int, b as int)) == t@.subrange(lo as int, b as int));
    let mut hi: usize = b;
    while hi > lo && is_ws(t[hi - 1])
        invariant
            a <= lo <= hi <= b <= t@.len(),
            trim_end(t@.subrange(lo as int, b as int)) == trim_end(t@.subrange(lo as int, hi as int)),
        decreases hi - lo,
    {
        assert(t@.subrange(lo as int, hi as int).drop_last() =~= t@.subrange(lo as int, hi - 1));
        hi = hi - 1;
    }
    assert(trim_end(t@.subrange(lo as int, hi as int)) == t@.subrange(lo as int, hi as int));
    (lo, hi)
}


/// Named texts that fill the `var` instructions of a template.
pub struct TemplateVariables {
    vars: Vec<(String, String)>,
}

impl View for TemplateVariables {
    type V = Map<Seq<char>, Seq<char>>;

    closed spec fn view(&self) -> Map<Seq<char>, Seq<char>> {
        map_of(self.vars@)
    }
}

impl TemplateVariables {
    /// The invariant: no name is held twice.
    pub closed spec fn wf(&self) -> bool {
        distinct_keys(self.vars@)
    }

    /// No variables.
    pub fn new() -> (r: TemplateVariables)
        ensures
            r.wf(),
            r@ == Map::<Seq<char>, Seq<char>>::empty(),
    {
        let r = TemplateVariables { vars: Vec::new() };
        proof {
            assert(r@ =~= Map::<Seq<char>, Seq<char>>::empty());
        }
        r
    }

    /// The index of the entry named `key`.
    fn find(&self, key: &str) -> (r: Option<usize>)
        requires
            self.wf(),
        ensures
            match r {
                Some(i) => i < self.vars@.len() && self.vars@[i as int].0@ == key@,
                None => !holds_key(self.vars@, key@),
            },
    {
        let k = key.to_owned();
        let mut i: usize = 0;
        while i < self.vars.len()
            invariant
                k@ == key@,
                0 <= i <= self.vars@.len(),
                forall|j: int| 0 <= j < i ==> #[trigger] self.vars@[j].0@ != key@,
            decreases self.vars@.len() - i,
        {
            if self.vars[i].0 == k {
                return Some(i);
            }
            i = i + 1;
        }
        None
    }

    pub fn contains_key(&self, key: &str) -> (r: bool)
        requires
            self.wf(),
        ensures
            r == self@.contains_key(key@),
    {
        self.find(key).is_some()
    }

    pub fn get(&self, key: &str) -> (r: Option<&String>)
        requires
            self.wf(),
        ensures
            match r {
                Some(v) => self@.contains_key(key@) && v@ == self@[key@],
                None => !self@.contains_key(key@),
            },
    {
        match self.find(key) {
            Some(i) => {
                proof {
                    lemma_map_of_at(self.vars@, i as int);
                }
                Some(&self.vars[i].1)
            },
            None => None,
        }
    }

    /// Sets `key` to `value`, and gives back the value it replaced.
    pub fn insert(&mut self, key: String, value: String) -> (r: Option<String>)
        requires
            old(self).wf(),
        ensures
            final(self).wf(),
            final(self)@ == old(self)@.insert(key@, value@),
            match r {
                Some(v) => old(self)@.contains_key(key@) && v@ == old(self)@[key@],
                None => !old(self)@.contains_key(key@),
            },
    {
        let ghost s = self.vars@;
        let ghost k = key@;
        let ghost v = value@;
        match self.find(key.as_str()) {
            Some(i) => {
                proof {
                    lemma_map_of_at(s, i as int);
                }
                let (_, previous) = self.vars.remove(i);
                self.vars.insert(i, (key, value));
                proof {
                    let t = self.vars@;
                    assert(t =~= s.update(i as int, t[i as int]));
                    assert(distinct_keys(t)) by {
                        assert forall|a: int, b: int|
                            0 <= a < t.len() && 0 <= b < t.len() && a != b implies #[trigger] t[a].0@ != #[trigger] t[b].0@ by {
                            if a != i && b != i {
                                assert(t[a] == s[a] && t[b] == s[b]);
                            } else if a == i {
                                assert(t[b] == s[b]);
                            } else {
                                assert(t[a] == s[a]);
                            }
                        }
                    }
                    assert forall|q: Seq<char>| holds_key(s, q) implies holds_key(t, q) by {
                        let j = choose|j: int| 0 <= j < s.len() && #[trigger] s[j].0@ == q;
                        assert(t[j].0@ == q);
                    }
                    assert forall|q: Seq<char>| holds_key(t, q) implies holds_key(s, q) by {
                        let j = choose|j: int| 0 <= j < t.len() && #[trigger] t[j].0@ == q;
                        assert(s[j].0@ == q);
                    }
                    assert forall|q: Seq<char>| #[trigger] map_of(t).contains_key(q) && q != k implies map_of(t)[q] == map_of(s)[q] by {
                        let j = choose|j: int| 0 <= j < t.len() && #[trigger] t[j].0@ == q;
                        assert(j != i);
                        assert(t[j] == s[j]);
                        lemma_map_of_at(s, j);
                        lemma_map_of_at(t, j);
                    }
                    lemma_map_of_at(t, i as int);
                    assert(map_of(t) =~= map_of(s).insert(k, v));
                }
                Some(previous)
            },
            None => {
                self.vars.push((key, value));
                proof {
                    let t = self.vars@;
                    let n = s.len() as int;
                    assert(distinct_keys(t)) by {
                        assert forall|a: int, b: int|
                            0 <= a < t.len() && 0 <= b < t.len() && a != b implies #[trigger] t[a].0@ != #[trigger] t[b].0@ by {
                            if a != n && b != n {
                                assert(t[a] == s[a] && t[b] == s[b]);
                            } else if a == n {
                                assert(t[b] == s[b]);
                            } else {
                                assert(t[a] == s[a]);
                            }
                        }
                    }
                    assert forall|q: Seq<char>| holds_key(s, q) implies holds_key(t, q) by {
                        let j = choose|j: int| 0 <= j < s.len() && #[trigger] s[j].0@ == q;
                        assert(t[j].0@ == q);
                    }
                    assert forall|q: Seq<char>| holds_key(t, q) && q != k implies holds_key(s, q) by {
                        let j = choose|j: int| 0 <= j < t.len() && #[trigger] t[j].0@ == q;
                        assert(j != n);
                        assert(s[j].0@ == q);
                    }
                    assert forall|q: Seq<char>| #[trigger] map_of(t).contains_key(q) && q != k implies map_of(t)[q] == map_of(s)[q] by {
                        let j = choose|j: int| 0 <= j < t.len() && #[trigger] t[j].0@ == q;
                        assert(j != n);
                        assert(t[j] == s[j]);
                        lemma_map_of_at(s, j);
                        lemma_map_of_at(t, j);
                    }
                    lemma_map_of_at(t, n);
                    assert(map_of(t) =~= map_of(s).insert(k, v));
                }
                None
            },
        }
    }

    /// Removes `key`, and gives back its value.
    pub fn remove(&mut self, key: &str) -> (r: Option<String>)
        requires
            old(self).wf(),
        ensures
            final(self).wf(),
            final(self)@ == old(self)@.remove(key@),
            match r {
                Some(v) => old(self)@.contains_key(key@) && v@ == old(self)@[key@],
                None => !old(self)@.contains_key(key@),
            },
    {
        let ghost s = self.vars@;
        match self.find(key) {
            Some(i) => {
                proof {
                    lemma_map_of_at(s, i as int);
                }
                let (_, previous) = self.vars.remove(i);
                proof {
                    let t = self.vars@;
                    let ii = i as int;
                    assert(t =~= s.remove(ii));
                    assert(distinct_keys(t)) by {
                        assert forall|a: int, b: int|
                            0 <= a < t.len() && 0 <= b < t.len() && a != b implies #[trigger] t[a].0@ != #[trigger] t[b].0@ by {
                            let oa = if a < ii { a } else { a + 1 };
                            let ob = if b < ii { b } else { b + 1 };
                            assert(t[a] == s[oa] && t[b] == s[ob]);
                        }
                    }
                    assert forall|q: Seq<char>| holds_key(t, q) implies holds_key(s, q) && q != key@ by {
                        let j = choose|j: int| 0 <= j < t.len() && #[trigger] t[j].0@ == q;
                        let oj = if j < ii { j } else { j + 1 };
                        assert(s[oj].0@ == q);
                    }
                    assert forall|q: Seq<char>| holds_key(s, q) && q != key@ implies holds_key(t, q) by {
                        let j = choose|j: int| 0 <= j < s.len() && #[trigger] s[j].0@ == q;
                        assert(j != ii);
                        let nj = if j < ii { j } else { j - 1 };
                        assert(t[nj].0@ == q);
                    }
                    assert forall|q: Seq<char>| #[trigger] map_of(t).contains_key(q) implies map_of(t)[q] == map_of(s)[q] by {
                        let j = choose|j: int| 0 <= j < t.len() && #[trigger] t[j].0@ == q;
                        let oj = if j < ii { j } else { j + 1 };
                        assert(t[j] == s[oj]);
                        lemma_map_of_at(s, oj);
                        lemma_map_of_at(t, j);
                    }
                    assert(map_of(t) =~= map_of(s).remove(key@));
                }
                Some(previous)
            },
            None => {
                proof {
                    assert(map_of(s) =~= map_of(s).remove(key@));
                }
                None
            },
        }
    }

    /// Appends what the instruction `t[a..b]` stands for, and tells whether
    /// it is well formed.
    fn append_instruction(
        &self,
        fragments: &TemplateVariables,
        t: &Vec<char>,
        template: &str,
        a: usize,
        b: usize,
        out: &mut String,
    ) -> (ok: bool)
        requires
            self.wf(),
            fragments.wf(),
            a <= b <= t@.len(),
            t@ == template@,
        ensures
            match instruction(self@, fragments@, t@.subrange(a as int, b as int)) {
                Some(piece) => ok && final(out)@ == old(out)@ + piece,
                None => !ok,
            },
    {
        let ghost inner = t@.subrange(a as int, b as int);
        let sp = find_space_in(t, a, b);
        let word_end = match sp {
            Some(i) => i,
            None => b,
        };
        let ghost word = t@.subrange(a as int, word_end as int);
        let ghost frag_word = seq!['f', 'r', 'a', 'g'];
        let ghost var_word = seq!['v', 'a', 'r'];
        let is_frag = word_end - a == 4 && t[a] == 'f' && t[a + 1] == 'r' && t[a + 2] == 'a' && t[a + 3] == 'g';
        let is_var = word_end - a == 3 && t[a] == 'v' && t[a + 1] == 'a' && t[a + 2] == 'r';
        proof {
            match find_space(inner, 0) {
                Some(k) => assert(inner.take(k as int) =~= word),
                None => assert(inner =~= word),
            }
            if is_frag {
                assert(word =~= frag_word);
            }
            if word == frag_word {
                assert(word.len() == 4 && word[0] == 'f' && word[1] == 'r' && word[2] == 'a' && word[3] == 'g');
            }
            if is_var {
                assert(word =~= var_word);
            }
            if word == var_word {
                assert(word.len() == 3 && word[0] == 'v' && word[1] == 'a' && word[2] == 'r');
            }
            assert(frag_word != var_word) by {
                assert(frag_word.len() != var_word.len());
            }
        }
        if !is_frag && !is_var {
            proof {
                assert(old(out)@ + Seq::<char>::empty() =~= old(out)@);
            }
            return true;
        }
        match sp {
            None => false,
            Some(i) => {
                let (lo, hi) = trim_range(t, i + 1, b);
                proof {
                    assert(inner.skip(i - a + 1) =~= t@.subrange(i + 1, b as int));
                }
                let name = template.substring_char(lo, hi);
                let vars = if is_var { self } else { fragments };
                match vars.get(name) {
                    Some(v) => out.append(v.as_str()),
                    None => {
                        proof {
                            assert(old(out)@ + Seq::<char>::empty() =~= old(out)@);
                        }
                    },
                }
                true
            },
        }
    }

    /// Fills the template: each `<?var NAME?>` becomes the variable's value
    /// and each `<?frag PATH?>` the text that `fragments` holds for the path,
    /// each empty where it is missing; other instructions are dropped. There
    /// is no result when a `<?` has no `?>` after it, when the two overlap, or
    /// when `var` or `frag` comes without a name.
    pub fn fill_template(&self, template: &str, fragments: &TemplateVariables) -> (r: Option<String>)
        requires
            self.wf(),
            fragments.wf(),
        ensures
            match render(self@, fragments@, template@, 0) {
                Some(text) => r is Some && r->0@ == text,
                None => r is None,
            },
    {
        let t = chars_of(template);
        let ghost full = render(self@, fragments@, t@, 0);
        let mut out = String::new();
        let mut pos: usize = 0;
        while pos <= t.len()
            invariant
                t@ == template@,
                self.wf(),
                fragments.wf(),
                full == render(self@, fragments@, t@, 0),
                pos <= t@.len(),
                full == prefixed(out@, render(self@, fragments@, t@, pos as int)),
            decreases t@.len() + 1 - pos,
        {
            let beg = match find_pair_from(&t, '<', '?', pos) {
                Some(beg) => beg,
                None => {
                    out.append(template.substring_char(pos, t.len()));
                    return Some(out);
                },
            };
            let end = match find_pair_from(&t, '?', '>', beg) {
                Some(end) => end,
                None => return None,
            };
            if end - beg < 2 {
                return None;
            }
            out.append(template.substring_char(pos, beg));
            if !self.append_instruction(fragments, &t, template, beg + 2, end, &mut out) {
                return None;
            }
            pos = end + 2;
        }
        None
    }
}

} // verus!

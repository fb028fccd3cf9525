//! Filtering of group names by patterns.
//!
//! A pattern is matched against a whole name. In a pattern `*` stands for any
//! run of characters, the empty one too, `?` for any one character, and every
//! other character for itself.

use vstd::prelude::*;
use crate::text::to_chars;

verus! {

/// Whether the pattern `p` matches the whole of `s`.
pub open spec fn wildcard_match(p: Seq<char>, s: Seq<char>) -> bool
    decreases p.len(), s.len(),
{
    if p.len() == 0 {
        s.len() == 0
    } else if p[0] == '*' {
        wildcard_match(p.drop_first(), s) || (s.len() > 0 && wildcard_match(p, s.drop_first()))
    } else {
        s.len() > 0 && (p[0] == '?' || p[0] == s[0]) && wildcard_match(
            p.drop_first(),
            s.drop_first(),
        )
    }
}

/// Whether what is left of `p` from `i` on matches what is left of `s` from
/// `j` on.
pub open spec fn suffix_match(p: Seq<char>, s: Seq<char>, i: int, j: int) -> bool {
    wildcard_match(p.skip(i), s.skip(j))
}

proof fn lemma_suffix_match(p: Seq<char>, s: Seq<char>, i: int, j: int)
    requires
        0 <= i <= p.len(),
        0 <= j <= s.len(),
    ensures
        suffix_match(p, s, i, j) == if i == p.len() {
            j == s.len()
        } else if p[i] == '*' {
            suffix_match(p, s, i + 1, j) || (j < s.len() && suffix_match(p, s, i, j + 1))
        } else {
            j < s.len() && (p[i] == '?' || p[i] == s[j]) && suffix_match(p, s, i + 1, j + 1)
        },
{
    if i < p.len() {
        assert(p.skip(i).drop_first() =~= p.skip(i + 1));
    }
    if j < s.len() {
        assert(s.skip(j).drop_first() =~= s.skip(j + 1));
    }
}

/// Whether `pattern` matches the whole of `name`.
pub fn matches_pattern(pattern: &[char], name: &[char]) -> (b: bool)
    ensures
        b == wildcard_match(pattern@, name@),
{
    let m = pattern.len();
    let n = name.len();
    let ghost p = pattern@;
    let ghost s = name@;
    // `row[j]` and `tail` say whether the pattern from `i` on matches the name
    // from `j` on, and from its end on.
    let mut row: Vec<bool> = Vec::new();
    while row.len() < n
        invariant
            row@.len() <= n,
            n == s.len(),
            m == p.len(),
            forall|j: int| 0 <= j < row@.len() ==> row@[j] == suffix_match(p, s, m as int, j),
        decreases n - row@.len(),
    {
        proof {
            lemma_suffix_match(p, s, m as int, row@.len() as int);
        }
        row.push(false);
    }
    let mut tail = true;
    proof {
        lemma_suffix_match(p, s, m as int, n as int);
    }
    let mut i: usize = m;
    while i > 0
        invariant
            i <= m,
            m == p.len(),
            n == s.len(),
            p == pattern@,
            s == name@,
            row@.len() == n,
            tail == suffix_match(p, s, i as int, n as int),
            forall|j: int| 0 <= j < n ==> row@[j] == suffix_match(p, s, i as int, j),
        decreases i,
    {
        let c = pattern[i - 1];
        proof {
            lemma_suffix_match(p, s, i - 1, n as int);
        }
        if c == '*' {
            let mut j: usize = n;
            while j > 0
                invariant
                    0 < i <= m,
                    m == p.len(),
                    n == s.len(),
                    j <= n,
                    p[i - 1] == '*',
                    row@.len() == n,
                    tail == suffix_match(p, s, i - 1, n as int),
                    forall|t: int| 0 <= t < j ==> row@[t] == suffix_match(p, s, i as int, t),
                    forall|t: int| j <= t < n ==> row@[t] == suffix_match(p, s, i - 1, t),
                decreases j,
            {
                let below = if j < n { row[j] } else { tail };
                let here = row[j - 1] || below;
                proof {
                    lemma_suffix_match(p, s, i - 1, j - 1);
                }
                row.set(j - 1, here);
                j -= 1;
            }
        } else {
            let mut j: usize = 0;
            while j < n
                invariant
                    0 < i <= m,
                    m == p.len(),
                    n == s.len(),
                    j <= n,
                    s == name@,
                    c == p[i - 1],
                    c != '*',
                    row@.len() == n,
                    tail == suffix_match(p, s, i as int, n as int),
                    forall|t: int| 0 <= t < j ==> row@[t] == suffix_match(p, s, i - 1, t),
                    forall|t: int| j <= t < n ==> row@[t] == suffix_match(p, s, i as int, t),
                decreases n - j,
            {
                let right = if j + 1 < n { row[j + 1] } else { tail };
                let here = (c == '?' || c == name[j]) && right;
                proof {
                    lemma_suffix_match(p, s, i - 1, j as int);
                }
                row.set(j, here);
                j += 1;
            }
            tail = false;
        }
        i -= 1;
    }
    assert(p.skip(0) =~= p);
    assert(s.skip(0) =~= s);
    if n > 0 {
        row[0]
    } else {
        tail
    }
}

/// A pattern for group names.
#[derive(Clone, Debug)]
pub struct Pattern {
    pub chars: Vec<char>,
}

impl View for Pattern {
    type V = Seq<char>;

    open spec fn view(&self) -> Seq<char> {
        self.chars@
    }
}

impl Pattern {
    pub fn new(text: &str) -> (p: Pattern)
        ensures
            p@ == text@,
    {
        Pattern { chars: to_chars(text) }
    }

    /// Whether the pattern matches the whole of `name`.
    pub fn matches(&self, name: &[char]) -> (b: bool)
        ensures
            b == wildcard_match(self@, name@),
    {
        matches_pattern(self.chars.as_slice(), name)
    }
}

/// The patterns of a list, as sequences of characters.
pub open spec fn patterns_view(patterns: Seq<Pattern>) -> Seq<Seq<char>> {
    patterns.map_values(|p: Pattern| p@)
}

/// Whether one of `patterns` matches `name`.
pub open spec fn any_match(patterns: Seq<Seq<char>>, name: Seq<char>) -> bool {
    exists|i: int| 0 <= i < patterns.len() && wildcard_match(#[trigger] patterns[i], name)
}

/// Whether one of `patterns` matches `name`.
pub fn matches_any(patterns: &Vec<Pattern>, name: &[char]) -> (b: bool)
    ensures
        b == any_match(patterns_view(patterns@), name@),
{
    let ghost views = patterns_view(patterns@);
    let mut i: usize = 0;
    while i < patterns.len()
        invariant
            i <= patterns@.len(),
            views == patterns_view(patterns@),
            forall|k: int| 0 <= k < i ==> !wildcard_match(#[trigger] views[k], name@),
        decreases patterns@.len() - i,
    {
        assert(views[i as int] == patterns@[i as int]@);
        if patterns[i].matches(name) {
            return true;
        }
        i += 1;
    }
    false
}

/// Which group names to take: those that one of `includes` matches, or all
/// where there is no such list, but none that one of `excludes` matches.
#[derive(Clone, Debug)]
pub struct FilterList {
    pub includes: Option<Vec<Pattern>>,
    pub excludes: Option<Vec<Pattern>>,
}

/// A filter list, with its patterns as sequences of characters.
pub struct FilterView {
    pub includes: Option<Seq<Seq<char>>>,
    pub excludes: Option<Seq<Seq<char>>>,
}

impl FilterView {
    /// Whether the list lets `name` through.
    pub open spec fn contains(self, name: Seq<char>) -> bool {
        &&& self.includes matches Some(includes) ==> any_match(includes, name)
        &&& self.excludes matches Some(excludes) ==> !any_match(excludes, name)
    }
}

impl View for FilterList {
    type V = FilterView;

    open spec fn view(&self) -> FilterView {
        FilterView {
            includes: match self.includes {
                Some(v) => Some(patterns_view(v@)),
                None => None,
            },
            excludes: match self.excludes {
                Some(v) => Some(patterns_view(v@)),
                None => None,
            },
        }
    }
}

impl Default for FilterList {
    /// The list that lets every name through.
    fn default() -> (f: Self)
        ensures
            f@.includes is None,
            f@.excludes is None,
    {
        FilterList { includes: None, excludes: None }
    }
}

impl FilterList {
    /// Whether the list lets the group name `name` through.
    pub fn contains_path(&self, name: &str) -> (b: bool)
        ensures
            b == self@.contains(name@),
    {
        let chars = to_chars(name);
        let included = match &self.includes {
            Some(includes) => matches_any(includes, chars.as_slice()),
            None => true,
        };
        let excluded = match &self.excludes {
            Some(excludes) => matches_any(excludes, chars.as_slice()),
            None => false,
        };
        included && !excluded
    }
}

} // verus!

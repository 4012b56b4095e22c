//! Extractors: tests on a value that also give something back, for use in
//! patterns.

use vstd::prelude::*;
use crate::value::{Data, Value};

verus! {

/// A test that a pattern can apply to a value with `~=`.
#[derive(Debug, PartialEq, Eq)]
pub enum Extractor {
    /// The value is a string that fits the rule, in which `*` stands for any
    /// run of characters and `?` for any one character. It gives `true`.
    Glob { rule: Vec<char> },
}

/// Whether the text from `i` on fits the rule from `j` on.
pub open spec fn glob(rule: Seq<char>, text: Seq<char>, i: int, j: int) -> bool
    decreases rule.len() - j, text.len() - i,
{
    if j < 0 || i < 0 || i > text.len() {
        false
    } else if j >= rule.len() {
        i == text.len()
    } else if rule[j] == '*' {
        glob(rule, text, i, j + 1) || (i < text.len() && glob(rule, text, i + 1, j))
    } else {
        i < text.len() && (rule[j] == '?' || rule[j] == text[i]) && glob(rule, text, i + 1, j + 1)
    }
}

/// A rule of one `*` is fitted by every text.
pub proof fn star_fits_everything(text: Seq<char>, i: int)
    requires
        0 <= i <= text.len(),
    ensures
        glob(seq!['*'], text, i, 0),
    decreases text.len() - i,
{
    if i < text.len() {
        star_fits_everything(text, i + 1);
    } else {
        assert(glob(seq!['*'], text, i, 1));
    }
}

/// A rule without `*` and `?` is fitted by the text that it is, and by no
/// other.
pub proof fn plain_rule_fits_itself(rule: Seq<char>, text: Seq<char>, i: int)
    requires
        0 <= i <= rule.len(),
        i <= text.len(),
        forall|k: int| 0 <= k < rule.len() ==> rule[k] != '*' && rule[k] != '?',
    ensures
        glob(rule, text, i, i) <==> rule.skip(i) == text.skip(i),
    decreases rule.len() - i,
{
    if i >= rule.len() {
        if i == text.len() {
            assert(rule.skip(i) =~= text.skip(i));
        } else {
            assert(rule.skip(i).len() != text.skip(i).len());
        }
    } else if i < text.len() && rule[i] == text[i] {
        plain_rule_fits_itself(rule, text, i + 1);
        if rule.skip(i + 1) == text.skip(i + 1) {
            assert(rule.skip(i) =~= seq![rule[i]] + rule.skip(i + 1));
            assert(text.skip(i) =~= seq![text[i]] + text.skip(i + 1));
        }
        if rule.skip(i) == text.skip(i) {
            assert(rule.skip(i + 1) =~= rule.skip(i).skip(1));
            assert(text.skip(i + 1) =~= text.skip(i).skip(1));
        }
    } else {
        if i < text.len() {
            assert(rule.skip(i)[0] != text.skip(i)[0]);
        } else {
            assert(rule.skip(i).len() != text.skip(i).len());
        }
    }
}

/// The characters of a string.
pub fn chars_of(s: &str) -> (r: Vec<char>)
    ensures
        r@ == s@,
{
    let mut out: Vec<char> = Vec::new();
    let n = s.unicode_len();
    let mut i: usize = 0;
    while i < n
        invariant
            i <= n,
            n == s@.len(),
            out@ == s@.take(i as int),
        decreases n - i,
    {
        out.push(s.get_char(i));
        assert(s@.take(i + 1) =~= s@.take(i as int).push(s@[i as int]));
        i += 1;
    }
    assert(s@.take(n as int) =~= s@);
    out
}

/// `len` times `false`.
fn blank(len: usize) -> (r: Vec<bool>)
    ensures
        r@.len() == len,
{
    let mut row: Vec<bool> = Vec::new();
    while row.len() < len
        invariant
            row@.len() <= len,
        decreases len - row.len(),
    {
        row.push(false);
    }
    row
}

/// Whether `text` fits `rule`. The work is bounded by the product of the two
/// lengths.
pub fn glob_match(rule: &Vec<char>, text: &Vec<char>) -> (r: bool)
    ensures
        r == glob(rule@, text@, 0, 0),
{
    let m = rule.len();
    let n = text.len();
    // `cur[j]` says whether the text from `i` on fits the rule from `j` on;
    // the rule from its end on is fitted by the end of the text alone.
    let mut cur = blank(m);
    let mut j: usize = m;
    while j > 0
        invariant
            j <= m,
            m == rule@.len(),
            n == text@.len(),
            cur@.len() == m,
            forall|k: int| j <= k < m ==> cur@[k] == glob(rule@, text@, n as int, k),
        decreases j,
    {
        j -= 1;
        let after = if j + 1 == m {
            true
        } else {
            cur[j + 1]
        };
        let ghost before = cur@;
        assert(glob(rule@, text@, n as int, m as int));
        assert(after == glob(rule@, text@, n as int, j + 1));
        cur.set(j, rule[j] == '*' && after);
        assert(cur@[j as int] == glob(rule@, text@, n as int, j as int));
        assert forall|k: int| j <= k < m implies cur@[k] == glob(rule@, text@, n as int, k) by {
            if k > j {
                assert(cur@[k] == before[k]);
            }
        }
    }
    let mut i: usize = n;
    while i > 0
        invariant
            i <= n,
            m == rule@.len(),
            n == text@.len(),
            cur@.len() == m,
            forall|k: int| 0 <= k < m ==> cur@[k] == glob(rule@, text@, i as int, k),
        decreases i,
    {
        i -= 1;
        let mut next = blank(m);
        let mut j: usize = m;
        while j > 0
            invariant
                j <= m,
                i < n,
                m == rule@.len(),
                n == text@.len(),
                cur@.len() == m,
                next@.len() == m,
                forall|k: int| 0 <= k < m ==> cur@[k] == glob(rule@, text@, i + 1, k),
                forall|k: int| j <= k < m ==> next@[k] == glob(rule@, text@, i as int, k),
            decreases j,
        {
            j -= 1;
            let fits = if rule[j] == '*' {
                let skip = if j + 1 == m {
                    false
                } else {
                    next[j + 1]
                };
                skip || cur[j]
            } else if rule[j] == '?' || rule[j] == text[i] {
                if j + 1 == m {
                    i + 1 == n
                } else {
                    cur[j + 1]
                }
            } else {
                false
            };
            let ghost before = next@;
            assert(!glob(rule@, text@, i as int, m as int));
            assert(glob(rule@, text@, i + 1, m as int) == (i + 1 == n));
            assert(fits == glob(rule@, text@, i as int, j as int));
            next.set(j, fits);
            assert forall|k: int| j <= k < m implies next@[k] == glob(rule@, text@, i as int, k) by {
                if k > j {
                    assert(next@[k] == before[k]);
                }
            }
        }
        cur = next;
    }
    if m == 0 {
        n == 0
    } else {
        cur[0]
    }
}

impl Extractor {
    /// The extractor for a glob rule.
    pub fn glob(rule: &str) -> (r: Extractor)
        ensures
            r == (Extractor::Glob { rule: r->rule }),
            r->rule@ == rule@,
    {
        Extractor::Glob { rule: chars_of(rule) }
    }

    /// What the extractor gives for a value; nothing for a value that does not
    /// pass its test.
    pub open spec fn extracts(self, v: Data) -> Option<Data> {
        match self {
            Extractor::Glob { rule } => match v {
                Data::String(text) => if glob(rule@, text, 0, 0) {
                    Some(Data::Bool(true))
                } else {
                    None
                },
                _ => None,
            },
        }
    }

    /// Applies the extractor to a value.
    pub fn extract(&self, v: &Value) -> (r: Option<Value>)
        ensures
            match r {
                Some(x) => self.extracts(v@) == Some(x@),
                None => self.extracts(v@).is_none(),
            },
    {
        match self {
            Extractor::Glob { rule } => match v {
                Value::String(text) => {
                    let text = chars_of(text.as_str());
                    if glob_match(rule, &text) {
                        Some(Value::Bool(true))
                    } else {
                        None
                    }
                },
                _ => None,
            },
        }
    }
}

} // verus!

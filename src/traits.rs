use vstd::prelude::*;

use crate::lexer::char_vec;
use crate::primitives::{token_text, TOKEN};
use crate::render::{debug_quoted, debug_quoted_of, decimal, decimal_string};

verus! {

/// Types with a display text.
pub trait Stringify<T> {
    spec fn text(&self) -> Seq<char>;

    fn as_string(&self) -> (r: String)
        ensures
            r@ == self.text(),
    ;
}

impl Stringify<TOKEN> for TOKEN {
    open spec fn text(&self) -> Seq<char> {
        token_text(*self)
    }

    fn as_string(&self) -> (r: String) {
        TOKEN::as_string(self)
    }
}

/// The position of the first `c` in `f` at or after `i`.
pub open spec fn first_index_from(f: Seq<char>, c: char, i: nat) -> Option<nat>
    decreases f.len() - i,
{
    if i >= f.len() {
        None
    } else if f[i as int] == c {
        Some(i)
    } else {
        first_index_from(f, c, i + 1)
    }
}

/// The position of the last `c` in `f` before `j`.
pub open spec fn last_index_before(f: Seq<char>, c: char, j: nat) -> Option<nat>
    decreases j,
{
    if j == 0 || j > f.len() {
        None
    } else if f[j - 1] == c {
        Some((j - 1) as nat)
    } else {
        last_index_before(f, c, (j - 1) as nat)
    }
}

/// The end of the run of double quotes that starts at `i`, stopping at `hi`.
pub open spec fn quotes_end(f: Seq<char>, i: nat, hi: nat) -> nat
    decreases hi - i,
{
    if i < hi && i < f.len() && f[i as int] == '"' {
        quotes_end(f, i + 1, hi)
    } else {
        i
    }
}

/// The start of the run of double quotes that ends at `j`, stopping at `lo`.
pub open spec fn quotes_start(f: Seq<char>, lo: nat, j: nat) -> nat
    decreases j - lo,
{
    if lo < j && j <= f.len() && f[j - 1] == '"' {
        quotes_start(f, lo, (j - 1) as nat)
    } else {
        j
    }
}

/// The value inside a `Debug` text such as `Some(7)` or `Some("text")`: what
/// stands between the last `(` and the first `)`, with the double quotes at
/// both ends removed when it is quoted. Empty when there is no such span.
pub open spec fn payload(f: Seq<char>) -> Seq<char> {
    match (last_index_before(f, '(', f.len()), first_index_from(f, ')', 0)) {
        (Some(l), Some(r)) => if l < r {
            let lo = l + 1;
            if lo < r && f[lo as int] == '"' && f[r - 1] == '"' {
                let a = quotes_end(f, lo, r);
                f.subrange(a as int, quotes_start(f, a, r) as int)
            } else {
                f.subrange(lo as int, r as int)
            }
        } else {
            seq![]
        },
        _ => seq![],
    }
}

/// `Some(` + `inner` + `)`.
pub open spec fn some_text(inner: Seq<char>) -> Seq<char> {
    seq!['S', 'o', 'm', 'e', '('] + inner + seq![')']
}

/// Extracts the value from the `Debug` text of an `Option`; see `payload`.
pub fn extract_payload(formatted: &str) -> (r: String)
    ensures
        r@ == payload(formatted@),
{
    let ghost f = formatted@;
    let chars = char_vec(formatted);
    let n = chars.len();
    let mut j = n;
    while j > 0 && chars[j - 1] != '('
        invariant
            chars@ == f,
            n == f.len(),
            j <= n,
            last_index_before(f, '(', n as nat) == last_index_before(f, '(', j as nat),
        decreases j,
    {
        j -= 1;
    }
    let mut i: usize = 0;
    while i < n && chars[i] != ')'
        invariant
            chars@ == f,
            n == f.len(),
            i <= n,
            first_index_from(f, ')', 0) == first_index_from(f, ')', i as nat),
        decreases n - i,
    {
        i += 1;
    }
    if j == 0 || i == n || j - 1 >= i {
        return String::new();
    }
    let l = j - 1;
    let r = i;
    let lo = l + 1;
    if lo < r && chars[lo] == '"' && chars[r - 1] == '"' {
        let mut a = lo;
        while a < r && chars[a] == '"'
            invariant
                chars@ == f,
                n == f.len(),
                lo <= a <= r <= n,
                quotes_end(f, lo as nat, r as nat) == quotes_end(f, a as nat, r as nat),
            decreases r - a,
        {
            a += 1;
        }
        let mut b = r;
        while a < b && chars[b - 1] == '"'
            invariant
                chars@ == f,
                n == f.len(),
                a <= b <= r <= n,
                quotes_start(f, a as nat, r as nat) == quotes_start(f, a as nat, b as nat),
            decreases b - a,
        {
            b -= 1;
        }
        String::from_str(formatted.substring_char(a, b))
    } else {
        String::from_str(formatted.substring_char(lo, r))
    }
}

/// Text of the value in an `Option`: empty for `None`.
pub trait OptionStringify<T> {
    spec fn option_text(&self) -> Seq<char>;

    fn option_as_string(&self) -> (r: String)
        ensures
            r@ == self.option_text(),
    ;
}

fn some_string(inner: String) -> (r: String)
    ensures
        r@ == some_text(inner@),
{
    proof {
        reveal_strlit("Some(");
        reveal_strlit(")");
    }
    let mut s = String::from_str("Some(");
    s.append(inner.as_str());
    s.append(")");
    s
}

impl OptionStringify<usize> for Option<usize> {
    open spec fn option_text(&self) -> Seq<char> {
        match self {
            Some(n) => payload(some_text(decimal(*n as nat))),
            None => seq![],
        }
    }

    fn option_as_string(&self) -> (r: String) {
        match self {
            Some(n) => {
                let formatted = some_string(decimal_string(*n));
                extract_payload(formatted.as_str())
            },
            None => String::new(),
        }
    }
}

impl<'a> OptionStringify<&'a str> for Option<&'a str> {
    open spec fn option_text(&self) -> Seq<char> {
        match self {
            Some(s) => payload(some_text(debug_quoted_of(s@))),
            None => seq![],
        }
    }

    fn option_as_string(&self) -> (r: String) {
        match self {
            Some(s) => {
                let formatted = some_string(debug_quoted(s));
                extract_payload(formatted.as_str())
            },
            None => String::new(),
        }
    }
}

} // verus!

//! Counting suffixes that make a name unique.

use vstd::prelude::*;

use crate::json::{self, Members, Text};
use crate::text;

verus! {

// --- the suffixes ----------------------------------------------------------

/// The text of a suffix: empty, or a number.
pub open spec fn suffix_text(s: Option<nat>) -> Text {
    match s {
        None => Seq::empty(),
        Some(n) => text::decimal(n),
    }
}

/// The suffix that is `k` steps after `start`. After the empty suffix comes 2.
pub open spec fn suffix_after(start: Option<nat>, k: nat) -> Option<nat> {
    match start {
        None => if k == 0 {
            None
        } else {
            Some(k + 1)
        },
        Some(n) => Some(n + k),
    }
}

/// The text of the suffix that is `k` steps after `start`.
pub open spec fn suffix_at(start: Option<nat>, k: nat) -> Text {
    suffix_text(suffix_after(start, k))
}

/// Whether `k` is the first step that is not taken.
pub open spec fn is_first_free(taken: spec_fn(nat) -> bool, k: nat) -> bool {
    !taken(k) && forall|j: nat| j < k ==> #[trigger] taken(j)
}

/// The first step that is not taken.
pub open spec fn first_free(taken: spec_fn(nat) -> bool) -> nat {
    choose|k: nat| is_first_free(taken, k)
}

/// There is only one first step that is not taken.
pub proof fn first_free_is(taken: spec_fn(nat) -> bool, k: nat)
    requires
        is_first_free(taken, k),
    ensures
        first_free(taken) == k,
{
    let c = first_free(taken);
    assert(is_first_free(taken, c));
    if c < k {
        assert(taken(c));
    } else if k < c {
        assert(taken(k));
    }
}

/// Where some step is not taken, there is a first one.
pub proof fn first_free_is_free(taken: spec_fn(nat) -> bool, n: nat)
    requires
        !taken(n),
    ensures
        is_first_free(taken, first_free(taken)),
    decreases n,
{
    if forall|j: nat| j < n ==> #[trigger] taken(j) {
        assert(is_first_free(taken, n));
    } else {
        let j = choose|j: nat| j < n && !#[trigger] taken(j);
        first_free_is_free(taken, j);
    }
}

/// Numeric or empty suffix counter. The suffix after the empty one is `2`.
///
/// The number is kept as decimal digits and has no upper bound.
pub struct SuffixCounter {
    digits: String,
    number: Ghost<Option<nat>>,
}

impl View for SuffixCounter {
    type V = Option<nat>;

    closed spec fn view(&self) -> Option<nat> {
        self.number@
    }
}

impl SuffixCounter {
    /// The digits spell the number.
    #[verifier::type_invariant]
    spec fn well_formed(&self) -> bool {
        self.digits@ == suffix_text(self.number@)
    }

    /// The empty suffix.
    pub fn empty() -> (r: SuffixCounter)
        ensures
            r@ == None::<nat>,
    {
        let digits = String::new();
        assert(digits@ =~= Seq::empty());
        SuffixCounter { digits, number: Ghost(None) }
    }

    /// The suffix 1.
    pub fn one() -> (r: SuffixCounter)
        ensures
            r@ == Some(1nat),
    {
        SuffixCounter { digits: text::u64_text(1), number: Ghost(Some(1)) }
    }

    /// The text of the suffix.
    pub fn as_str(&self) -> (r: String)
        ensures
            r@ == suffix_text(self@),
    {
        proof {
            use_type_invariant(self);
        }
        self.digits.clone()
    }

    /// The next suffix.
    pub fn next(&self) -> (r: SuffixCounter)
        ensures
            r@ == suffix_after(self@, 1),
    {
        proof {
            use_type_invariant(self);
        }
        if self.digits.as_str().is_empty() {
            proof {
                if let Some(n) = self.number@ {
                    decimal_nonempty(n);
                }
            }
            SuffixCounter { digits: text::u64_text(2), number: Ghost(Some(2)) }
        } else {
            let ghost n = self.number@->0;
            SuffixCounter {
                digits: increment(self.digits.as_str(), Ghost(n)),
                number: Ghost(Some(n + 1)),
            }
        }
    }
}

/// A number has at least one digit.
pub proof fn decimal_nonempty(n: nat)
    ensures
        text::decimal(n).len() > 0,
{
}

/// The digits of the next number.
fn increment(digits: &str, Ghost(n): Ghost<nat>) -> (r: String)
    requires
        digits@ == text::decimal(n),
    ensures
        r@ == text::decimal(n + 1),
    decreases n,
{
    proof {
        decimal_nonempty(n);
    }
    let len: usize = digits.unicode_len();
    let last: char = digits.get_char(len - 1);
    let d: u64 = (last as u32 - '0' as u32) as u64;
    proof {
        assert(last == text::digit((n % 10) as int));
        assert(d == n % 10);
    }
    if n_is_small(len, Ghost(n)) {
        if d == 9 {
            let ten = "10";
            proof {
                reveal_strlit("10");
                reveal_with_fuel(text::decimal, 2);
                assert(n + 1 == 10);
                assert(text::decimal(10) =~= seq!['1', '0']);
                assert(ten@ =~= seq!['1', '0']);
            }
            ten.to_owned()
        } else {
            text::u64_text(d + 1)
        }
    } else {
        let head = text::take(digits, len - 1);
        assert(head@ =~= text::decimal(n / 10));
        if d == 9 {
            let mut r = increment(head.as_str(), Ghost(n / 10));
            r.push('0');
            assert((n + 1) / 10 == n / 10 + 1 && (n + 1) % 10 == 0);
            r
        } else {
            let mut r = head;
            r.push(text::digit_char(d + 1));
            assert((n + 1) / 10 == n / 10 && (n + 1) % 10 == n % 10 + 1);
            r
        }
    }
}

/// Whether a number has a single digit.
fn n_is_small(len: usize, Ghost(n): Ghost<nat>) -> (b: bool)
    requires
        len == text::decimal(n).len(),
    ensures
        b == (n < 10),
{
    proof {
        if n >= 10 {
            decimal_nonempty(n / 10);
        }
    }
    len == 1
}

// --- long suffixes are free ------------------------------------------------

/// The power of ten.
pub open spec fn pow10(k: nat) -> nat
    decreases k,
{
    if k == 0 {
        1
    } else {
        10 * pow10((k - 1) as nat)
    }
}

/// A number of at least `10^k` has more than `k` digits.
pub proof fn many_digits(n: nat, k: nat)
    requires
        n >= pow10(k),
    ensures
        text::decimal(n).len() > k,
    decreases k,
{
    if k > 0 {
        pow10_positive((k - 1) as nat);
        assert(n >= 10);
        assert(n / 10 >= pow10((k - 1) as nat));
        many_digits(n / 10, (k - 1) as nat);
    }
}

proof fn pow10_positive(k: nat)
    ensures
        pow10(k) >= 1,
    decreases k,
{
    if k > 0 {
        pow10_positive((k - 1) as nat);
    }
}

/// Far enough steps give long suffixes.
pub proof fn long_suffix(start: Option<nat>, k: nat, len: nat)
    requires
        k >= pow10(len),
    ensures
        suffix_at(start, k).len() > len,
{
    pow10_positive(len);
    match start {
        None => many_digits(k + 1, len),
        Some(n) => many_digits(n + k, len),
    }
}

/// The length of the longest member name.
pub open spec fn longest_name(m: Members, i: nat) -> nat
    decreases m.len() - i,
{
    if i >= m.len() {
        0
    } else {
        json::max(m[i as int].0.len(), longest_name(m, i + 1))
    }
}

/// No name is longer than the longest.
pub proof fn name_is_short(m: Members, i: nat, k: int)
    requires
        i <= k < m.len(),
    ensures
        m[k].0.len() <= longest_name(m, i),
    decreases m.len() - i,
{
    if i < k {
        name_is_short(m, i + 1, k);
    }
}

/// The length of the longest text of a list.
pub open spec fn longest_text(v: Seq<Text>, i: nat) -> nat
    decreases v.len() - i,
{
    if i >= v.len() {
        0
    } else {
        json::max(v[i as int].len(), longest_text(v, i + 1))
    }
}

/// No text is longer than the longest.
pub proof fn text_is_short(v: Seq<Text>, i: nat, k: int)
    requires
        i <= k < v.len(),
    ensures
        v[k].len() <= longest_text(v, i),
    decreases v.len() - i,
{
    if i < k {
        text_is_short(v, i + 1, k);
    }
}

} // verus!

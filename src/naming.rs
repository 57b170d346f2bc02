//! Names for entries whose holding path is already taken: `H~1`, `H~2`, ...,
//! the first free one wins.
use vstd::prelude::*;

verus! {

broadcast use vstd::string::group_string_axioms;

pub open spec fn digit_char(d: nat) -> char {
    if d == 0 { '0' }
    else if d == 1 { '1' }
    else if d == 2 { '2' }
    else if d == 3 { '3' }
    else if d == 4 { '4' }
    else if d == 5 { '5' }
    else if d == 6 { '6' }
    else if d == 7 { '7' }
    else if d == 8 { '8' }
    else { '9' }
}

/// The decimal digits of `n`, most significant first, with no leading zero.
pub open spec fn decimal(n: nat) -> Seq<char>
    decreases n,
{
    if n < 10 {
        seq![digit_char(n)]
    } else {
        decimal(n / 10).push(digit_char(n % 10))
    }
}

/// `h` with the suffix `~k`.
pub open spec fn suffixed(h: Seq<char>, k: nat) -> Seq<char> {
    h + seq!['~'] + decimal(k)
}

/// `f` was asked about a string with view `x` and answered `answer`.
pub open spec fn answered<F: Fn(&str) -> bool>(f: F, x: Seq<char>, answer: bool) -> bool {
    exists|s: &str| s@ == x && #[trigger] f.ensures((s,), answer)
}

/// `k` is the first suffix of `h` found free: every earlier suffix was found
/// taken, and `~k` itself free.
pub open spec fn first_free_suffix(
    h: Seq<char>,
    k: nat,
    taken: spec_fn(Seq<char>) -> bool,
    free: spec_fn(Seq<char>) -> bool,
) -> bool {
    &&& k >= 1
    &&& free(suffixed(h, k))
    &&& forall|j: nat| 1 <= j < k ==> taken(#[trigger] suffixed(h, j))
}

/// `r` is where an entry meant for `h` goes: `h` itself where it was found
/// free, else the first free suffixed name.
pub open spec fn resolved_grave(
    h: Seq<char>,
    r: Seq<char>,
    taken: spec_fn(Seq<char>) -> bool,
    free: spec_fn(Seq<char>) -> bool,
) -> bool {
    ||| free(h) && r == h
    ||| taken(h) && exists|k: nat| first_free_suffix(h, k, taken, free) && r == suffixed(h, k)
}

/// The one-character text of a digit.
fn digit_str(d: u64) -> (r: &'static str)
    requires
        d < 10,
    ensures
        r@ == seq![digit_char(d as nat)],
{
    proof {
        reveal_strlit("0");
        reveal_strlit("1");
        reveal_strlit("2");
        reveal_strlit("3");
        reveal_strlit("4");
        reveal_strlit("5");
        reveal_strlit("6");
        reveal_strlit("7");
        reveal_strlit("8");
        reveal_strlit("9");
    }
    match d {
        0 => "0",
        1 => "1",
        2 => "2",
        3 => "3",
        4 => "4",
        5 => "5",
        6 => "6",
        7 => "7",
        8 => "8",
        _ => "9",
    }
}

/// Writes `n` in decimal.
pub fn decimal_string(n: u64) -> (r: String)
    ensures
        r@ == decimal(n as nat),
    decreases n,
{
    if n < 10 {
        digit_str(n).to_owned()
    } else {
        let mut s = decimal_string(n / 10);
        s.append(digit_str(n % 10));
        s
    }
}

/// `grave` with the suffix `~k`.
pub fn suffixed_name(grave: &str, k: u64) -> (r: String)
    ensures
        r@ == suffixed(grave@, k as nat),
{
    proof {
        reveal_strlit("~");
    }
    let mut s = grave.to_owned();
    s.append("~");
    let d = decimal_string(k);
    s.append(d.as_str());
    s
}

/// Add a numbered suffix to a name that is taken: tries `grave~1`, `grave~2`,
/// ... in turn and returns the first one that `occupied` reports free, or `None`
/// where every suffix up to `u64::MAX` is taken.
pub fn rename_grave<F: Fn(&str) -> bool>(grave: &str, occupied: &F) -> (r: Option<String>)
    requires
        forall|s: &str| occupied.requires((s,)),
    ensures
        r.is_some() ==> exists|k: nat|
            first_free_suffix(
                grave@,
                k,
                |x: Seq<char>| answered(*occupied, x, true),
                |x: Seq<char>| answered(*occupied, x, false),
            ) && r->0@ == suffixed(grave@, k),
        r.is_none() ==> forall|j: nat|
            1 <= j <= u64::MAX ==> answered(*occupied, #[trigger] suffixed(grave@, j), true),
{
    let ghost taken = |x: Seq<char>| answered(*occupied, x, true);
    let mut k: u64 = 1;
    loop
        invariant
            1 <= k,
            forall|s: &str| occupied.requires((s,)),
            forall|j: nat| 1 <= j < k ==> answered(*occupied, #[trigger] suffixed(grave@, j), true),
        decreases u64::MAX - k,
    {
        let candidate = suffixed_name(grave, k);
        let found = occupied(candidate.as_str());
        if !found {
            assert(answered(*occupied, suffixed(grave@, k as nat), false));
            assert(first_free_suffix(
                grave@,
                k as nat,
                |x: Seq<char>| answered(*occupied, x, true),
                |x: Seq<char>| answered(*occupied, x, false),
            ));
            return Some(candidate);
        }
        assert(answered(*occupied, suffixed(grave@, k as nat), true));
        if k == u64::MAX {
            return None;
        }
        k = k + 1;
    }
}

/// The holding path for an entry meant for `holding`: `holding` itself where
/// `occupied` reports it free, else the first free suffixed name.
pub fn grave_for<F: Fn(&str) -> bool>(holding: &str, occupied: &F) -> (r: Option<String>)
    requires
        forall|s: &str| occupied.requires((s,)),
    ensures
        r.is_some() ==> resolved_grave(
            holding@,
            r->0@,
            |x: Seq<char>| answered(*occupied, x, true),
            |x: Seq<char>| answered(*occupied, x, false),
        ),
        r.is_none() ==> answered(*occupied, holding@, true) && forall|j: nat|
            1 <= j <= u64::MAX ==> answered(*occupied, #[trigger] suffixed(holding@, j), true),
{
    if !occupied(holding) {
        return Some(holding.to_owned());
    }
    rename_grave(holding, occupied)
}

proof fn lemma_decimal_len(n: nat)
    ensures
        decimal(n).len() >= 1,
        n >= 10 ==> decimal(n).len() >= 2,
    decreases n,
{
    if n >= 10 {
        lemma_decimal_len(n / 10);
    }
}

/// Different numbers are written differently.
pub proof fn lemma_decimal_injective(a: nat, b: nat)
    requires
        decimal(a) == decimal(b),
    ensures
        a == b,
    decreases a,
{
    lemma_decimal_len(a);
    lemma_decimal_len(b);
    if a >= 10 && b >= 10 {
        let (da, db) = (decimal(a / 10), decimal(b / 10));
        assert(decimal(a).drop_last() =~= da);
        assert(decimal(b).drop_last() =~= db);
        assert(decimal(a).last() == digit_char(a % 10));
        assert(decimal(b).last() == digit_char(b % 10));
        lemma_decimal_injective(a / 10, b / 10);
    } else if a < 10 && b < 10 {
        assert(decimal(a)[0] == digit_char(a));
        assert(decimal(b)[0] == digit_char(b));
    }
}

/// Different suffixes give different names, and none gives `h` itself.
pub proof fn lemma_suffixed_distinct(h: Seq<char>, j: nat, k: nat)
    ensures
        suffixed(h, k) != h,
        suffixed(h, j) == suffixed(h, k) ==> j == k,
{
    lemma_decimal_len(k);
    if suffixed(h, j) == suffixed(h, k) {
        assert(suffixed(h, j).skip(h.len() + 1int) =~= decimal(j));
        assert(suffixed(h, k).skip(h.len() + 1int) =~= decimal(k));
        lemma_decimal_injective(j, k);
    }
}

/// The names taken once `n` entries have gone to `h`: `h` itself and its
/// first `n - 1` suffixed names.
pub open spec fn graves_after(h: Seq<char>, n: nat, x: Seq<char>) -> bool {
    n >= 1 && (x == h || exists|j: nat| 1 <= j < n && x == #[trigger] suffixed(h, j))
}

/// Conflict suffixing: where the names taken are exactly those that `n`
/// earlier entries for the holding path `h` received, the next entry goes to
/// `h` if `n` is zero and to `h~n` otherwise; so the entries receive `h`,
/// `h~1`, `h~2`, ..., with no suffix skipped or used twice.
pub proof fn lemma_conflict_suffixing(
    h: Seq<char>,
    n: nat,
    r: Seq<char>,
    taken: spec_fn(Seq<char>) -> bool,
    free: spec_fn(Seq<char>) -> bool,
)
    requires
        forall|x: Seq<char>| #[trigger] taken(x) ==> graves_after(h, n, x),
        forall|x: Seq<char>| #[trigger] free(x) ==> !graves_after(h, n, x),
        resolved_grave(h, r, taken, free),
    ensures
        n == 0 ==> r == h,
        n >= 1 ==> r == suffixed(h, n),
{
    if n >= 1 {
        assert(graves_after(h, n, h));
        let k = choose|k: nat| first_free_suffix(h, k, taken, free) && r == suffixed(h, k);
        assert(!graves_after(h, n, suffixed(h, k)));
        if k < n {
            assert(graves_after(h, n, suffixed(h, k)));
        }
        if k > n {
            assert(taken(suffixed(h, n)));
            assert(graves_after(h, n, suffixed(h, n)));
            lemma_suffixed_distinct(h, n, n);
            if suffixed(h, n) != h {
                let j = choose|j: nat| 1 <= j < n && suffixed(h, n) == #[trigger] suffixed(h, j);
                lemma_suffixed_distinct(h, j, n);
            }
        }
    }
}

} // verus!

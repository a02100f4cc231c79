//! Where an accepted file goes: the name it is saved under, chosen so that
//! it never lands on a file that already exists in the save directory.
use vstd::prelude::*;
use vstd::set_lib::{lemma_int_range, lemma_len_subset, lemma_map_size, set_int_range};
use crate::error::TaildropError;
use crate::models::{ConflictPolicy, opt_view};
use crate::text::{char_lowercase, chars_of, decimal, digit_char, is_caseless, push_decimal, push_str, spec_char_lowercase, str_eq, string_of_range};

verus! {

/// The position of the last `.` in `name`, if any.
pub open spec fn last_dot(name: Seq<char>) -> Option<int>
    decreases name.len(),
{
    if name.len() == 0 {
        None
    } else if name.last() == '.' {
        Some(name.len() - 1)
    } else {
        last_dot(name.drop_last())
    }
}

/// A file name split into stem and extension, as `Path::file_stem` and
/// `Path::extension` split it: at the last `.`, unless that dot starts the
/// name.
pub open spec fn split_name(name: Seq<char>) -> (Seq<char>, Option<Seq<char>>) {
    match last_dot(name) {
        Some(d) => if d > 0 {
            (name.take(d), Some(name.skip(d + 1)))
        } else {
            (name, None)
        },
        None => (name, None),
    }
}

/// The text that numbers an alternative name: ` (n)`.
pub open spec fn number_tag(n: nat) -> Seq<char> {
    " ("@ + decimal(n) + ")"@
}

/// What follows the number in an alternative name: the extension, if any.
pub open spec fn ext_tail(ext: Option<Seq<char>>) -> Seq<char> {
    match ext {
        Some(e) => "."@ + e,
        None => Seq::empty(),
    }
}

/// The `n`-th alternative name: `stem (n).ext`, or `stem (n)` without an
/// extension.
pub open spec fn numbered_name(stem: Seq<char>, ext: Option<Seq<char>>, n: nat) -> Seq<char> {
    stem + number_tag(n) + ext_tail(ext)
}

/// `s` with each character replaced by its lower-case form.
pub open spec fn lowercase_chars(s: Seq<char>) -> Seq<char>
    decreases s.len(),
{
    if s.len() == 0 {
        Seq::empty()
    } else {
        lowercase_chars(s.drop_last()) + spec_char_lowercase(s.last())
    }
}

/// What a save directory compares names by: the name itself, or, on a file
/// system that ignores case, the name lower-cased character by character.
pub open spec fn name_key(name: Seq<char>, fold_case: bool) -> Seq<char> {
    if fold_case {
        lowercase_chars(name)
    } else {
        name
    }
}

/// Some name in `taken` is the same file name as `name`.
pub open spec fn name_taken(taken: Seq<String>, name: Seq<char>, fold_case: bool) -> bool {
    exists|i: int| 0 <= i < taken.len() && name_key(taken[i]@, fold_case) == name_key(name, fold_case)
}

/// The first free alternative name, searching from the `n`-th up to the
/// one numbered one past the count of taken names.
pub open spec fn first_free_name(
    stem: Seq<char>,
    ext: Option<Seq<char>>,
    taken: Seq<String>,
    fold_case: bool,
    n: nat,
) -> Option<Seq<char>>
    decreases taken.len() + 2 - n,
{
    if n > taken.len() + 1 {
        None
    } else if !name_taken(taken, numbered_name(stem, ext, n), fold_case) {
        Some(numbered_name(stem, ext, n))
    } else {
        first_free_name(stem, ext, taken, fold_case, n + 1)
    }
}

/// The name under which an accepted file named `name` is saved, when the
/// names in `taken` already exist in the save directory: `name` itself when
/// it is free or the policy allows overwriting, else the first free
/// numbered alternative.
pub open spec fn destination_name(name: Seq<char>, taken: Seq<String>, policy: ConflictPolicy, fold_case: bool) -> Option<Seq<char>> {
    if !name_taken(taken, name, fold_case) || policy == ConflictPolicy::Overwrite {
        Some(name)
    } else {
        first_free_name(split_name(name).0, split_name(name).1, taken, fold_case, 1)
    }
}

// --- why a free name is always found -----------------------------------------

proof fn lemma_decimal_nonempty(n: nat)
    ensures
        decimal(n).len() >= 1,
        n >= 10 ==> decimal(n).len() >= 2,
    decreases n,
{
    if n >= 10 {
        lemma_decimal_nonempty(n / 10);
    }
}

proof fn lemma_decimal_injective(n: nat, m: nat)
    requires
        decimal(n) == decimal(m),
    ensures
        n == m,
    decreases n,
{
    lemma_decimal_nonempty(n);
    lemma_decimal_nonempty(m);
    if n >= 10 && m >= 10 {
        assert(decimal(n).drop_last() == decimal(n / 10));
        assert(decimal(m).drop_last() == decimal(m / 10));
        assert(decimal(n).last() == digit_char(n % 10));
        assert(decimal(m).last() == digit_char(m % 10));
        assert(n % 10 == m % 10);
        lemma_decimal_injective(n / 10, m / 10);
        assert(n == 10 * (n / 10) + n % 10);
        assert(m == 10 * (m / 10) + m % 10);
    } else if n < 10 && m < 10 {
        assert(decimal(n)[0] == digit_char(n));
        assert(decimal(m)[0] == digit_char(m));
    }
}

proof fn lemma_decimal_digits(n: nat)
    ensures
        forall|i: int| 0 <= i < decimal(n).len() ==> '0' <= #[trigger] decimal(n)[i] <= '9',
    decreases n,
{
    if n >= 10 {
        lemma_decimal_digits(n / 10);
        assert forall|i: int| 0 <= i < decimal(n).len() implies '0' <= #[trigger] decimal(n)[i] <= '9' by {
            if i < decimal(n).len() - 1 {
                assert(decimal(n)[i] == decimal(n / 10)[i]);
            }
        }
    }
}

proof fn lemma_lowercase_concat(a: Seq<char>, b: Seq<char>)
    ensures
        lowercase_chars(a + b) == lowercase_chars(a) + lowercase_chars(b),
    decreases b.len(),
{
    if b.len() == 0 {
        assert(a + b == a);
    } else {
        lemma_lowercase_concat(a, b.drop_last());
        assert((a + b).drop_last() == a + b.drop_last());
    }
}

/// Each character of the `n`-th number tag is known to be its own
/// lower-case form.
pub open spec fn tag_keeps_case(n: nat) -> bool {
    forall|i: int| 0 <= i < number_tag(n).len() ==> #[trigger] spec_char_lowercase(number_tag(n)[i]) == seq![
        number_tag(n)[i],
    ]
}

proof fn lemma_lowercase_identity(s: Seq<char>)
    requires
        forall|i: int| 0 <= i < s.len() ==> #[trigger] spec_char_lowercase(s[i]) == seq![s[i]],
    ensures
        lowercase_chars(s) == s,
    decreases s.len(),
{
    if s.len() > 0 {
        assert forall|i: int| 0 <= i < s.drop_last().len() implies #[trigger] spec_char_lowercase(s.drop_last()[i])
            == seq![s.drop_last()[i]] by {
            assert(s.drop_last()[i] == s[i]);
        }
        lemma_lowercase_identity(s.drop_last());
        assert(spec_char_lowercase(s[s.len() - 1]) == seq![s[s.len() - 1]]);
        assert(s.drop_last().push(s.last()) == s);
    }
}

proof fn lemma_middle_equal(a: Seq<char>, m1: Seq<char>, m2: Seq<char>, t: Seq<char>)
    requires
        a + m1 + t == a + m2 + t,
    ensures
        m1 == m2,
{
    assert((a + m1 + t).len() == (a + m2 + t).len());
    assert((a + m1 + t).len() == a.len() + m1.len() + t.len());
    assert((a + m2 + t).len() == a.len() + m2.len() + t.len());
    assert(m1.len() == m2.len());
    assert forall|i: int| 0 <= i < m1.len() implies m1[i] == m2[i] by {
        assert((a + m1 + t)[a.len() + i] == m1[i]);
        assert((a + m2 + t)[a.len() + i] == m2[i]);
    }
    assert(m1 =~= m2);
}

proof fn lemma_tag_injective(n: nat, m: nat)
    requires
        number_tag(n) == number_tag(m),
    ensures
        n == m,
{
    lemma_middle_equal(" ("@, decimal(n), decimal(m), ")"@);
    lemma_decimal_injective(n, m);
}

/// The characters of a number tag have no case.
proof fn lemma_tag_caseless(n: nat)
    ensures
        forall|i: int| 0 <= i < number_tag(n).len() ==> is_caseless(#[trigger] number_tag(n)[i]),
{
    reveal_strlit(" (");
    reveal_strlit(")");
    lemma_decimal_digits(n);
    assert forall|i: int| 0 <= i < number_tag(n).len() implies is_caseless(#[trigger] number_tag(n)[i]) by {
        if 2 <= i < 2 + decimal(n).len() {
            assert(number_tag(n)[i] == decimal(n)[i - 2]);
        }
    }
}

/// What is known of the caseless characters of an alternative name holds of
/// its number tag.
proof fn lemma_tag_keeps_case(stem: Seq<char>, ext: Option<Seq<char>>, n: nat)
    requires
        forall|i: int| 0 <= i < numbered_name(stem, ext, n).len() && is_caseless(numbered_name(stem, ext, n)[i])
            ==> #[trigger] spec_char_lowercase(numbered_name(stem, ext, n)[i]) == seq![numbered_name(stem, ext, n)[i]],
    ensures
        tag_keeps_case(n),
{
    lemma_tag_caseless(n);
    assert forall|i: int| 0 <= i < number_tag(n).len() implies #[trigger] spec_char_lowercase(number_tag(n)[i])
        == seq![number_tag(n)[i]] by {
        assert(numbered_name(stem, ext, n)[stem.len() + i] == number_tag(n)[i]);
        assert(is_caseless(number_tag(n)[i]));
    }
}

/// Alternative names with different numbers are different file names, also
/// where case is ignored.
proof fn lemma_numbered_keys_differ(stem: Seq<char>, ext: Option<Seq<char>>, fold_case: bool, n: nat, m: nat)
    requires
        name_key(numbered_name(stem, ext, n), fold_case) == name_key(numbered_name(stem, ext, m), fold_case),
        fold_case ==> tag_keeps_case(n) && tag_keeps_case(m),
    ensures
        n == m,
{
    if fold_case {
        lemma_lowercase_identity(number_tag(n));
        lemma_lowercase_identity(number_tag(m));
        lemma_lowercase_concat(stem + number_tag(n), ext_tail(ext));
        lemma_lowercase_concat(stem, number_tag(n));
        lemma_lowercase_concat(stem + number_tag(m), ext_tail(ext));
        lemma_lowercase_concat(stem, number_tag(m));
        lemma_middle_equal(lowercase_chars(stem), number_tag(n), number_tag(m), lowercase_chars(ext_tail(ext)));
    } else {
        lemma_middle_equal(stem, number_tag(n), number_tag(m), ext_tail(ext));
    }
    lemma_tag_injective(n, m);
}

/// When the alternatives numbered 1 to `n` are all taken, there are at
/// least `n` taken names.
proof fn lemma_taken_alternatives_are_few(stem: Seq<char>, ext: Option<Seq<char>>, taken: Seq<String>, fold_case: bool, n: nat)
    requires
        forall|k: nat| 1 <= k <= n ==> #[trigger] name_taken(taken, numbered_name(stem, ext, k), fold_case),
        fold_case ==> forall|k: nat| 1 <= k <= n ==> #[trigger] tag_keeps_case(k),
    ensures
        n <= taken.len(),
{
    let f = |k: int| name_key(numbered_name(stem, ext, k as nat), fold_case);
    let range = set_int_range(1, n as int + 1);
    let alternatives = range.map(f);
    let keys = taken.map_values(|s: String| name_key(s@, fold_case));
    lemma_int_range(1, n as int + 1);
    assert forall|k1: int, k2: int| range.contains(k1) && range.contains(k2) && #[trigger] f(k1) == #[trigger] f(k2)
        implies k1 == k2 by {
        if fold_case {
            assert(tag_keeps_case(k1 as nat));
            assert(tag_keeps_case(k2 as nat));
        }
        lemma_numbered_keys_differ(stem, ext, fold_case, k1 as nat, k2 as nat);
    }
    lemma_map_size(range, alternatives, f);
    assert forall|x: Seq<char>| alternatives.contains(x) implies keys.to_set().contains(x) by {
        let k = choose|k: int| range.contains(k) && f(k) == x;
        assert(name_taken(taken, numbered_name(stem, ext, k as nat), fold_case));
        let i = choose|i: int| 0 <= i < taken.len() && name_key(taken[i]@, fold_case) == name_key(
            numbered_name(stem, ext, k as nat),
            fold_case,
        );
        assert(keys[i] == x);
    }
    vstd::seq_lib::seq_to_set_is_finite(keys);
    lemma_len_subset(alternatives, keys.to_set());
    keys.lemma_cardinality_of_set();
}

// --- choosing the name -------------------------------------------------------

/// The key `name_key` of `s`.
fn key_of(s: &str, fold_case: bool) -> (r: String)
    ensures
        r@ == name_key(s@, fold_case),
        fold_case ==> forall|i: int| 0 <= i < s@.len() && is_caseless(s@[i]) ==> #[trigger] spec_char_lowercase(s@[i])
            == seq![s@[i]],
{
    if !fold_case {
        return s.to_string();
    }
    let v = chars_of(s);
    let mut r = String::new();
    let mut i: usize = 0;
    while i < v.len()
        invariant
            i <= v@.len(),
            v@ == s@,
            r@ == lowercase_chars(v@.take(i as int)),
            forall|j: int| 0 <= j < i && is_caseless(v@[j]) ==> #[trigger] spec_char_lowercase(v@[j]) == seq![v@[j]],
        decreases v@.len() - i,
    {
        let l = char_lowercase(v[i]);
        push_str(&mut r, l.as_str());
        assert(v@.take(i + 1).drop_last() == v@.take(i as int));
        i += 1;
    }
    assert(v@.take(v@.len() as int) == v@);
    r
}

/// The keys by which the save directory tells the names in `taken` apart.
fn keys_of(taken: &Vec<String>, fold_case: bool) -> (r: Vec<String>)
    ensures
        r@.len() == taken@.len(),
        forall|i: int| 0 <= i < taken@.len() ==> #[trigger] r@[i]@ == name_key(taken@[i]@, fold_case),
{
    let mut r: Vec<String> = Vec::new();
    let mut i: usize = 0;
    while i < taken.len()
        invariant
            i <= taken@.len(),
            r@.len() == i,
            forall|j: int| 0 <= j < i ==> #[trigger] r@[j]@ == name_key(taken@[j]@, fold_case),
        decreases taken@.len() - i,
    {
        r.push(key_of(taken[i].as_str(), fold_case));
        i += 1;
    }
    r
}

fn is_taken(taken: &Vec<String>, keys: &Vec<String>, name: &str, fold_case: bool) -> (r: bool)
    requires
        keys@.len() == taken@.len(),
        forall|i: int| 0 <= i < taken@.len() ==> #[trigger] keys@[i]@ == name_key(taken@[i]@, fold_case),
    ensures
        r == name_taken(taken@, name@, fold_case),
        fold_case ==> forall|i: int| 0 <= i < name@.len() && is_caseless(name@[i]) ==> #[trigger] spec_char_lowercase(
            name@[i],
        ) == seq![name@[i]],
{
    let key = key_of(name, fold_case);
    let mut i: usize = 0;
    while i < keys.len()
        invariant
            i <= keys@.len(),
            keys@.len() == taken@.len(),
            forall|j: int| 0 <= j < taken@.len() ==> #[trigger] keys@[j]@ == name_key(taken@[j]@, fold_case),
            key@ == name_key(name@, fold_case),
            fold_case ==> forall|j: int| 0 <= j < name@.len() && is_caseless(name@[j]) ==> #[trigger] spec_char_lowercase(
                name@[j],
            ) == seq![name@[j]],
            forall|j: int| 0 <= j < i ==> name_key(#[trigger] taken@[j]@, fold_case) != key@,
        decreases keys@.len() - i,
    {
        if str_eq(keys[i].as_str(), key.as_str()) {
            return true;
        }
        i += 1;
    }
    false
}

fn numbered(stem: &str, ext: &Option<String>, n: u64) -> (r: String)
    ensures
        r@ == numbered_name(stem@, opt_view(*ext), n as nat),
{
    let mut r = String::new();
    push_str(&mut r, stem);
    push_str(&mut r, " (");
    push_decimal(&mut r, n);
    push_str(&mut r, ")");
    assert(r@ == stem@ + number_tag(n as nat));
    match ext {
        Some(e) => {
            let ghost before = r@;
            push_str(&mut r, ".");
            push_str(&mut r, e.as_str());
            assert(r@ == before + ("."@ + e@));
        },
        None => {
            assert(r@ == r@ + Seq::<char>::empty());
        },
    }
    r
}

/// Picks the name under which an accepted file is saved, never one that
/// exists already unless the policy explicitly allows overwriting; `taken`
/// holds the names that exist in the save directory, and `fold_case` says
/// whether the directory's file system ignores case. When the name is
/// taken, the first free numbered alternative is picked; one is always
/// free, as there are more alternatives to try than taken names.
pub fn resolve_destination(name: &str, taken: &Vec<String>, policy: ConflictPolicy, fold_case: bool) -> (r: String)
    requires
        taken@.len() < usize::MAX,
    ensures
        destination_name(name@, taken@, policy, fold_case) == Some(r@),
{
    let keys = keys_of(taken, fold_case);
    if !is_taken(taken, &keys, name, fold_case) || policy == ConflictPolicy::Overwrite {
        return name.to_string();
    }
    let v = chars_of(name);
    let mut d: usize = v.len();
    assert(v@.take(v@.len() as int) == v@);
    while d > 0 && v[d - 1] != '.'
        invariant
            d <= v@.len(),
            v@ == name@,
            last_dot(name@) == last_dot(v@.take(d as int)),
        decreases d,
    {
        assert(v@.take(d - 1) == v@.take(d as int).drop_last());
        d -= 1;
    }
    assert(v@.take(v@.len() as int) == v@);
    let (stem, ext) = if d > 1 {
        assert(v@.take(d as int).drop_last() == v@.take(d - 1));
        (string_of_range(&v, 0, d - 1), Some(string_of_range(&v, d, v.len())))
    } else {
        if d == 1 {
            assert(v@.take(1).last() == '.');
        }
        (name.to_string(), None)
    };
    let ghost sext: Option<Seq<char>> = opt_view(ext);
    assert((stem@, sext) == split_name(name@));
    let bound: u64 = taken.len() as u64 + 1;
    let mut n: u64 = 1;
    loop
        invariant
            1 <= n <= bound,
            bound == taken@.len() + 1,
            first_free_name(stem@, sext, taken@, fold_case, 1) == first_free_name(stem@, sext, taken@, fold_case, n as nat),
            forall|k: nat| 1 <= k < n ==> #[trigger] name_taken(taken@, numbered_name(stem@, sext, k), fold_case),
            fold_case ==> forall|k: nat| 1 <= k < n ==> #[trigger] tag_keeps_case(k),
            sext == opt_view(ext),
            keys@.len() == taken@.len(),
            forall|i: int| 0 <= i < taken@.len() ==> #[trigger] keys@[i]@ == name_key(taken@[i]@, fold_case),
            name_taken(taken@, name@, fold_case),
            policy != ConflictPolicy::Overwrite,
            (stem@, sext) == split_name(name@),
        decreases bound - n,
    {
        let c = numbered(stem.as_str(), &ext, n);
        if !is_taken(taken, &keys, c.as_str(), fold_case) {
            return c;
        }
        proof {
            if fold_case {
                lemma_tag_keeps_case(stem@, sext, n as nat);
            }
            assert forall|k: nat| 1 <= k <= n implies #[trigger] name_taken(taken@, numbered_name(stem@, sext, k), fold_case) by {
                if k < n {
                    assert(name_taken(taken@, numbered_name(stem@, sext, k), fold_case));
                }
            }
            if fold_case {
                assert forall|k: nat| 1 <= k <= n implies #[trigger] tag_keeps_case(k) by {
                    if k < n {
                        assert(tag_keeps_case(k));
                    }
                }
            }
            lemma_taken_alternatives_are_few(stem@, sext, taken@, fold_case, n as nat);
        }
        n += 1;
    }
}

} // verus!

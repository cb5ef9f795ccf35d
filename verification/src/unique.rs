//! Names that collide with nothing.
//!
//! Where a wanted name is taken, a number is set behind the stem of its last
//! component, after a `_` and before the suffix: `foo.png` becomes
//! `foo_1.png`, then `foo_2.png`, and so on, until a name is free.

use vstd::prelude::*;
use vstd::string::*;
use vstd::set_lib::lemma_len_subset;
use crate::path::{directory, directory_of, final_component, last_component,
    lemma_last_component_of_concat, lemma_split, lemma_stem_suffix, split_name, stem_of, suffix_of};
use crate::text::{decimal, decimal_string, lemma_decimal_digits, lemma_decimal_injective,
    lemma_decimal_value, texts};

verus! {

/// The names that a list of strings holds, as a set.
pub open spec fn name_set(names: Seq<String>) -> Set<Seq<char>> {
    texts(names).to_set()
}

/// The `k`-th numbered variant of `p`: the decimal numeral of `k` set behind
/// the stem of the last component, after a `_`.
pub open spec fn numbered(p: Seq<char>, k: nat) -> Seq<char> {
    directory_of(p) + stem_of(last_component(p)) + seq!['_'] + decimal(k) + suffix_of(
        last_component(p),
    )
}

/// Whether `k` is the first number, counting from 1, whose variant of `p` is
/// not in `taken`.
pub open spec fn is_first_free(p: Seq<char>, taken: Set<Seq<char>>, k: nat) -> bool {
    &&& k >= 1
    &&& !taken.contains(numbered(p, k))
    &&& forall|j: nat| 1 <= j < k ==> taken.contains(#[trigger] numbered(p, j))
}

/// The name that stands in for `p` where the names in `taken` are in use:
/// `p` itself if it is free, else its first numbered variant that is.
pub open spec fn unique_name(p: Seq<char>, taken: Set<Seq<char>>) -> Seq<char> {
    if !taken.contains(p) {
        p
    } else {
        numbered(p, choose|k: nat| is_first_free(p, taken, k))
    }
}

/// The destination that is used in place of the wanted one, `d`: `d` itself
/// where files may be overwritten, else a name that is unique among `taken`.
pub open spec fn settled(d: Seq<char>, overwrite: bool, taken: Set<Seq<char>>) -> Seq<char> {
    if overwrite {
        d
    } else {
        unique_name(d, taken)
    }
}

/// `p` together with its first `k - 1` numbered variants.
spec fn run_of(p: Seq<char>, k: nat) -> Set<Seq<char>>
    decreases k,
{
    if k <= 1 {
        set![p]
    } else {
        run_of(p, (k - 1) as nat).insert(numbered(p, (k - 1) as nat))
    }
}

/// A numbered variant is longer than the name it comes from.
pub proof fn lemma_numbered_len(p: Seq<char>, k: nat)
    ensures
        numbered(p, k).len() == p.len() + 1 + decimal(k).len(),
        numbered(p, k) != p,
{
    lemma_split(p);
    lemma_stem_suffix(last_component(p));
    lemma_decimal_value(k);
    assert(p.len() == directory_of(p).len() + last_component(p).len());
    assert(last_component(p).len() == stem_of(last_component(p)).len() + suffix_of(
        last_component(p),
    ).len());
}

/// A numbered variant lies in the directory of the name it comes from.
pub proof fn lemma_numbered_directory(p: Seq<char>, k: nat)
    ensures
        directory_of(numbered(p, k)) == directory_of(p),
{
    lemma_split(p);
    lemma_stem_suffix(last_component(p));
    lemma_decimal_digits(k);
    let name = last_component(p);
    let variant = stem_of(name) + seq!['_'] + decimal(k) + suffix_of(name);
    if variant.contains('/') {
        let i = choose|i: int| 0 <= i < variant.len() && variant[i] == '/';
        let cut = stem_of(name).len() as int;
        let n = decimal(k).len() as int;
        if i < cut {
            assert(name[i] == '/');
        } else if i == cut {
        } else if i < cut + 1 + n {
            assert(variant[i] == decimal(k)[i - cut - 1]);
        } else {
            assert(name[i - 1 - n] == '/');
        }
        assert(false);
    }
    assert(numbered(p, k) =~= directory_of(p) + variant);
    lemma_last_component_of_concat(directory_of(p), variant);
}

/// Different numbers give different variants.
pub proof fn lemma_numbered_injective(p: Seq<char>, a: nat, b: nat)
    requires
        numbered(p, a) == numbered(p, b),
    ensures
        a == b,
{
    lemma_numbered_len(p, a);
    lemma_numbered_len(p, b);
    let head = directory_of(p) + stem_of(last_component(p)) + seq!['_'];
    let tail = suffix_of(last_component(p));
    let n = decimal(a).len() as int;
    assert(numbered(p, a).subrange(head.len() as int, head.len() + n) =~= decimal(a));
    assert(numbered(p, b).subrange(head.len() as int, head.len() + n) =~= decimal(b));
    lemma_decimal_injective(a, b);
}

/// A run of `k` names holds `k` names: the name itself and `k - 1` variants,
/// no two alike.
proof fn lemma_run_of(p: Seq<char>, k: nat)
    requires
        k >= 1,
    ensures
        run_of(p, k).finite(),
        run_of(p, k).len() == k,
        forall|s: Seq<char>| #[trigger]
            run_of(p, k).contains(s) <==> s == p || exists|j: nat|
                1 <= j < k && s == #[trigger] numbered(p, j),
    decreases k,
{
    if k <= 1 {
        assert(run_of(p, k) =~= Set::empty().insert(p));
    } else {
        let prev = (k - 1) as nat;
        lemma_run_of(p, prev);
        let last = numbered(p, prev);
        lemma_numbered_len(p, prev);
        if run_of(p, prev).contains(last) {
            let j = choose|j: nat| 1 <= j < prev && last == #[trigger] numbered(p, j);
            lemma_numbered_injective(p, j, prev);
        }
        assert forall|s: Seq<char>| #[trigger]
            run_of(p, k).contains(s) <==> s == p || exists|j: nat|
                1 <= j < k && s == #[trigger] numbered(p, j) by {
            if run_of(p, k).contains(s) {
                if s == last {
                    assert(1 <= prev < k && s == numbered(p, prev));
                } else if s != p {
                    let j = choose|j: nat| 1 <= j < prev && s == #[trigger] numbered(p, j);
                    assert(1 <= j < k && s == numbered(p, j));
                }
            }
            if exists|j: nat| 1 <= j < k && s == #[trigger] numbered(p, j) {
                let j = choose|j: nat| 1 <= j < k && s == #[trigger] numbered(p, j);
                if j < prev {
                    assert(run_of(p, prev).contains(s));
                }
            }
        }
    }
}

/// Where a name and its first `k - 1` variants are all among finitely many
/// taken names, there are at least `k` taken names.
pub proof fn lemma_run_is_bounded(p: Seq<char>, taken: Set<Seq<char>>, k: nat)
    requires
        taken.finite(),
        taken.contains(p),
        k >= 1,
        forall|j: nat| 1 <= j < k ==> taken.contains(#[trigger] numbered(p, j)),
    ensures
        k <= taken.len(),
{
    lemma_run_of(p, k);
    assert(run_of(p, k).subset_of(taken));
    lemma_len_subset(run_of(p, k), taken);
}

/// Among finitely many taken names some numbered variant of `p` is free, and
/// the first such is numbered `k` or higher if all below `k` are taken.
proof fn lemma_first_free_from(p: Seq<char>, taken: Set<Seq<char>>, k: nat)
    requires
        taken.finite(),
        taken.contains(p),
        k >= 1,
        forall|j: nat| 1 <= j < k ==> taken.contains(#[trigger] numbered(p, j)),
    ensures
        exists|n: nat| is_first_free(p, taken, n),
    decreases taken.len() - k,
{
    lemma_run_is_bounded(p, taken, k);
    if !taken.contains(numbered(p, k)) {
        assert(is_first_free(p, taken, k));
    } else {
        lemma_run_is_bounded(p, taken, k + 1);
        lemma_first_free_from(p, taken, k + 1);
    }
}

/// The name that stands in for a wanted one is never among the taken names,
/// as long as these are finitely many.
pub proof fn lemma_unique_name_is_free(p: Seq<char>, taken: Set<Seq<char>>)
    requires
        taken.finite(),
    ensures
        !taken.contains(unique_name(p, taken)),
{
    if taken.contains(p) {
        lemma_first_free_from(p, taken, 1);
    }
}

/// The name that stands in for a wanted one lies in the same directory.
pub proof fn lemma_unique_name_directory(p: Seq<char>, taken: Set<Seq<char>>)
    ensures
        directory_of(unique_name(p, taken)) == directory_of(p),
{
    if taken.contains(p) {
        lemma_numbered_directory(p, choose|k: nat| is_first_free(p, taken, k));
    }
}

/// There is only one first free number.
pub proof fn lemma_first_free_is_unique(p: Seq<char>, taken: Set<Seq<char>>, a: nat, b: nat)
    requires
        is_first_free(p, taken, a),
        is_first_free(p, taken, b),
    ensures
        a == b,
{
    if a < b {
        assert(taken.contains(numbered(p, a)));
    } else if b < a {
        assert(taken.contains(numbered(p, b)));
    }
}

/// The names of a list are finitely many, and no more than the list is long.
pub proof fn lemma_name_set(names: Seq<String>)
    ensures
        name_set(names).finite(),
        name_set(names).len() <= names.len(),
        forall|i: int| 0 <= i < names.len() ==> name_set(names).contains(#[trigger] names[i]@),
{
    let all = texts(names);
    vstd::seq_lib::seq_to_set_is_finite(all);
    all.lemma_cardinality_of_set();
    assert forall|i: int| 0 <= i < names.len() implies name_set(names).contains(
        #[trigger] names[i]@,
    ) by {
        assert(all[i] == names[i]@);
        assert(all.contains(names[i]@));
    }
}

/// Whether `name` is one of `names`.
pub fn contains_name(names: &Vec<String>, name: &String) -> (found: bool)
    ensures
        found == name_set(names@).contains(name@),
{
    let ghost all = texts(names@);
    let mut i: usize = 0;
    while i < names.len()
        invariant
            i <= names.len(),
            all == texts(names@),
            forall|j: int| 0 <= j < i ==> all[j] != name@,
        decreases names.len() - i,
    {
        if names[i] == *name {
            proof {
                assert(all[i as int] == name@);
                assert(all.contains(name@));
            }
            return true;
        }
        i = i + 1;
    }
    proof {
        if all.contains(name@) {
            let j = choose|j: int| 0 <= j < all.len() && all[j] == name@;
            assert(false);
        }
    }
    false
}

/// Sets the numeral of `k` between a stem and a suffix, below `dir`.
fn numbered_name(dir: &str, stem: &str, suffix: &str, k: usize) -> (name: String)
    ensures
        name@ == dir@ + stem@ + seq!['_'] + decimal(k as nat) + suffix@,
{
    proof {
        reveal_strlit("_");
    }
    let number = decimal_string(k);
    let mut name = String::from_str(dir);
    name.append(stem);
    name.append("_");
    assert(name@ =~= dir@ + stem@ + seq!['_']);
    name.append(number.as_str());
    name.append(suffix);
    name
}

/// Makes a name unique among `existing`: `fpath` itself where it is not
/// among them, else the first of `fpath`'s numbered variants that is not.
pub fn make_uniq(fpath: &str, existing: &Vec<String>) -> (name: String)
    ensures
        name@ == unique_name(fpath@, name_set(existing@)),
        !name_set(existing@).contains(name@),
{
    let wanted = String::from_str(fpath);
    if !contains_name(existing, &wanted) {
        return wanted;
    }
    let dir = directory(fpath);
    let (stem, suffix) = split_name(final_component(fpath));
    let ghost taken = name_set(existing@);
    let mut k: usize = 1;
    proof {
        lemma_name_set(existing@);
        lemma_run_is_bounded(fpath@, taken, 1);
    }
    loop
        invariant
            1 <= k <= existing.len(),
            taken == name_set(existing@),
            taken.finite(),
            taken.len() <= existing.len(),
            taken.contains(fpath@),
            dir@ == directory_of(fpath@),
            stem@ == stem_of(last_component(fpath@)),
            suffix@ == suffix_of(last_component(fpath@)),
            forall|j: nat| 1 <= j < k ==> taken.contains(#[trigger] numbered(fpath@, j)),
        decreases existing.len() - k,
    {
        let candidate = numbered_name(dir, stem, suffix, k);
        if !contains_name(existing, &candidate) {
            proof {
                assert(is_first_free(fpath@, taken, k as nat));
                let n = choose|n: nat| is_first_free(fpath@, taken, n);
                lemma_first_free_is_unique(fpath@, taken, k as nat, n);
            }
            return candidate;
        }
        proof {
            lemma_run_is_bounded(fpath@, taken, (k + 1) as nat);
        }
        k = k + 1;
    }
}

/// Settles the destination of a file that wants to go to `wanted`. Where
/// files may be overwritten, that is `wanted`, whatever exists. Else it is
/// `wanted` made unique among `existing`.
pub fn dedupe(wanted: &str, overwrite: bool, existing: &Vec<String>) -> (dst: String)
    ensures
        dst@ == settled(wanted@, overwrite, name_set(existing@)),
        overwrite ==> dst@ == wanted@,
        !overwrite ==> !name_set(existing@).contains(dst@),
{
    if overwrite {
        String::from_str(wanted)
    } else {
        make_uniq(wanted, existing)
    }
}

} // verus!

//! Verified character-level text utilities.
//!
//! All name handling in the crate (splitting ids, prefix stripping, edit
//! distance) is done on `Vec<char>` values whose views are the `Seq<char>`
//! views of the strings they came from.

use vstd::prelude::*;

verus! {

/// Relies on std's `String::push`: appends one character.
pub assume_specification[ String::push ](s: &mut String, ch: char)
    ensures
        final(s)@ == old(s)@.push(ch),
;

/// The characters of `s`, in order.
pub fn str_chars(s: &str) -> (r: Vec<char>)
    ensures
        r@ == s@,
{
    let n = s.unicode_len();
    let mut r: Vec<char> = Vec::new();
    let mut i: usize = 0;
    while i < n
        invariant
            n == s@.len(),
            i <= n,
            r@ == s@.take(i as int),
        decreases n - i,
    {
        let c = s.get_char(i);
        r.push(c);
        i = i + 1;
        proof {
            assert(r@ =~= s@.take(i as int));
        }
    }
    proof {
        assert(r@ =~= s@);
    }
    r
}

/// A string whose characters are exactly `v`.
pub fn chars_string(v: &Vec<char>) -> (r: String)
    ensures
        r@ == v@,
{
    let mut r = String::new();
    let mut i: usize = 0;
    while i < v.len()
        invariant
            i <= v@.len(),
            r@ == v@.take(i as int),
        decreases v@.len() - i,
    {
        r.push(v[i]);
        i = i + 1;
        proof {
            assert(r@ =~= v@.take(i as int));
        }
    }
    proof {
        assert(r@ =~= v@);
    }
    r
}

/// Whether two string slices hold the same characters.
pub fn str_eq(a: &str, b: &str) -> (r: bool)
    ensures
        r == (a@ == b@),
{
    let na = a.unicode_len();
    let nb = b.unicode_len();
    if na != nb {
        return false;
    }
    let mut i: usize = 0;
    while i < na
        invariant
            na == a@.len(),
            na == b@.len(),
            i <= na,
            forall|j: int| 0 <= j < i ==> a@[j] == b@[j],
        decreases na - i,
    {
        if a.get_char(i) != b.get_char(i) {
            return false;
        }
        i = i + 1;
    }
    proof {
        assert(a@ =~= b@);
    }
    true
}

/// Duplicates an optional string.
pub fn clone_opt_string(o: &Option<String>) -> (r: Option<String>)
    ensures
        r == *o,
{
    match o {
        Some(s) => Some(s.clone()),
        None => None,
    }
}

/// Whether a character vector holds the same characters as a string slice.
pub fn chars_eq_str(v: &Vec<char>, s: &str) -> (r: bool)
    ensures
        r == (v@ == s@),
{
    let n = s.unicode_len();
    if v.len() != n {
        return false;
    }
    let mut i: usize = 0;
    while i < n
        invariant
            n == s@.len(),
            n == v@.len(),
            i <= n,
            forall|j: int| 0 <= j < i ==> v@[j] == s@[j],
        decreases n - i,
    {
        if v[i] != s.get_char(i) {
            return false;
        }
        i = i + 1;
    }
    proof {
        assert(v@ =~= s@);
    }
    true
}

/// The suffix of `v` from position `n` on, as a string.
pub fn skip_chars(v: &Vec<char>, n: usize) -> (r: String)
    requires
        n <= v@.len(),
    ensures
        r@ == v@.skip(n as int),
{
    let mut out: Vec<char> = Vec::new();
    let mut i: usize = n;
    while i < v.len()
        invariant
            n <= i <= v@.len(),
            out@ == v@.subrange(n as int, i as int),
        decreases v@.len() - i,
    {
        out.push(v[i]);
        i = i + 1;
        proof {
            assert(out@ =~= v@.subrange(n as int, i as int));
        }
    }
    proof {
        assert(out@ =~= v@.skip(n as int));
    }
    chars_string(&out)
}

pub open spec fn contains_char(s: Seq<char>, c: char) -> bool {
    exists|i: int| 0 <= i < s.len() && s[i] == c
}

/// Whether `c` occurs in `v`.
pub fn chars_contain(v: &Vec<char>, c: char) -> (r: bool)
    ensures
        r == contains_char(v@, c),
{
    let mut i: usize = 0;
    while i < v.len()
        invariant
            i <= v@.len(),
            forall|j: int| 0 <= j < i ==> v@[j] != c,
        decreases v@.len() - i,
    {
        if v[i] == c {
            return true;
        }
        i = i + 1;
    }
    false
}

pub open spec fn is_prefix(pre: Seq<char>, s: Seq<char>) -> bool {
    pre.len() <= s.len() && s.take(pre.len() as int) == pre
}

/// Whether `v` starts with the characters of `pre`.
pub fn chars_start_with(v: &Vec<char>, pre: &Vec<char>) -> (r: bool)
    ensures
        r == is_prefix(pre@, v@),
{
    if pre.len() > v.len() {
        return false;
    }
    let mut i: usize = 0;
    while i < pre.len()
        invariant
            pre@.len() <= v@.len(),
            i <= pre@.len(),
            forall|j: int| 0 <= j < i ==> v@[j] == pre@[j],
        decreases pre@.len() - i,
    {
        if v[i] != pre[i] {
            proof {
                assert(v@.take(pre@.len() as int)[i as int] != pre@[i as int]);
            }
            return false;
        }
        i = i + 1;
    }
    proof {
        assert(v@.take(pre@.len() as int) =~= pre@);
    }
    true
}

pub open spec fn matches_at(s: Seq<char>, pat: Seq<char>, i: int) -> bool {
    0 <= i && i + pat.len() <= s.len() && s.subrange(i, i + pat.len()) == pat
}

pub open spec fn contains_seq(s: Seq<char>, pat: Seq<char>) -> bool {
    exists|i: int| matches_at(s, pat, i)
}

/// Whether the characters of `pat` occur contiguously in `v`.
pub fn chars_contain_seq(v: &Vec<char>, pat: &Vec<char>) -> (r: bool)
    ensures
        r == contains_seq(v@, pat@),
{
    if pat.len() == 0 {
        proof {
            assert(matches_at(v@, pat@, 0)) by {
                assert(v@.subrange(0, 0) =~= pat@);
            }
        }
        return true;
    }
    if pat.len() > v.len() {
        return false;
    }
    let last_start = v.len() - pat.len();
    let mut i: usize = 0;
    while i <= last_start
        invariant
            v@.len() <= usize::MAX,
            pat@.len() <= v@.len(),
            last_start == v@.len() - pat@.len(),
            i <= last_start + 1,
            forall|k: int| 0 <= k < i ==> !matches_at(v@, pat@, k),
        decreases last_start + 1 - i,
    {
        let mut j: usize = 0;
        let mut hit = true;
        while j < pat.len()
            invariant
                v@.len() <= usize::MAX,
                pat@.len() <= v@.len(),
                i + pat@.len() <= v@.len(),
                j <= pat@.len(),
                hit == (forall|m: int| 0 <= m < j ==> v@[i + m] == pat@[m]),
            decreases pat@.len() - j,
        {
            if v[i + j] != pat[j] {
                hit = false;
                j = pat.len();
            } else {
                j = j + 1;
            }
        }
        if hit {
            proof {
                assert(v@.subrange(i as int, i + pat@.len()) =~= pat@);
                assert(matches_at(v@, pat@, i as int));
                assert(contains_seq(v@, pat@));
            }
            return true;
        } else {
            proof {
                assert(!matches_at(v@, pat@, i as int)) by {
                    if matches_at(v@, pat@, i as int) {
                        assert(forall|m: int|
                            0 <= m < pat@.len() ==> v@.subrange(i as int, i + pat@.len())[m]
                                == pat@[m]);
                        assert(forall|m: int| 0 <= m < pat@.len() ==> v@[i + m] == pat@[m]);
                    }
                }
            }
        }
        i = i + 1;
    }
    proof {
        assert forall|k: int| matches_at(v@, pat@, k) implies false by {
            assert(0 <= k <= v@.len() - pat@.len());
        }
    }
    false
}

/// The pieces of `s` between occurrences of `sep`, in order. Splitting the
/// empty sequence gives one empty piece, as `str::split` does.
pub open spec fn split_chars(s: Seq<char>, sep: char) -> Seq<Seq<char>>
    decreases s.len(),
{
    if s.len() == 0 {
        seq![Seq::<char>::empty()]
    } else if s[0] == sep {
        seq![Seq::<char>::empty()] + split_chars(s.skip(1), sep)
    } else {
        let r = split_chars(s.skip(1), sep);
        seq![seq![s[0]] + r[0]] + r.skip(1)
    }
}

pub proof fn lemma_split_chars_len(s: Seq<char>, sep: char)
    ensures
        split_chars(s, sep).len() >= 1,
    decreases s.len(),
{
    if s.len() == 0 {
    } else if s[0] == sep {
    } else {
        lemma_split_chars_len(s.skip(1), sep);
    }
}

fn split_chars_from(v: &Vec<char>, from: usize, sep: char) -> (r: Vec<Vec<char>>)
    requires
        from <= v@.len(),
    ensures
        r@.map_values(|p: Vec<char>| p@) == split_chars(v@.skip(from as int), sep),
    decreases v@.len() - from,
{
    proof {
        lemma_split_chars_len(v@.skip(from as int), sep);
    }
    if from == v.len() {
        let mut r: Vec<Vec<char>> = Vec::new();
        r.push(Vec::new());
        proof {
            assert(v@.skip(from as int) =~= Seq::<char>::empty());
            assert(r@.map_values(|p: Vec<char>| p@) =~= split_chars(v@.skip(from as int), sep));
        }
        r
    } else if v[from] == sep {
        let rest = split_chars_from(v, from + 1, sep);
        let mut r: Vec<Vec<char>> = Vec::new();
        r.push(Vec::new());
        let mut k: usize = 0;
        while k < rest.len()
            invariant
                k <= rest@.len(),
                r@.len() == k + 1,
                r@[0]@ == Seq::<char>::empty(),
                forall|j: int| 0 <= j < k ==> r@[j + 1]@ == rest@[j]@,
            decreases rest@.len() - k,
        {
            let piece = rest[k].clone();
            assert(piece@ == rest@[k as int]@);
            r.push(piece);
            k = k + 1;
        }
        proof {
            assert(v@.skip(from as int)[0] == sep);
            assert(v@.skip(from as int).skip(1) =~= v@.skip(from + 1));
            assert(r@.map_values(|p: Vec<char>| p@) =~= split_chars(v@.skip(from as int), sep));
        }
        r
    } else {
        let rest = split_chars_from(v, from + 1, sep);
        proof {
            lemma_split_chars_len(v@.skip(from + 1), sep);
            assert(rest@.map_values(|p: Vec<char>| p@).len() == rest@.len());
        }
        let mut first: Vec<char> = Vec::new();
        first.push(v[from]);
        let mut i: usize = 0;
        let ghost rest0 = rest@[0]@;
        while i < rest[0].len()
            invariant
                rest@.len() >= 1,
                rest0 == rest@[0]@,
                i <= rest0.len(),
                first@ == seq![v@[from as int]] + rest0.take(i as int),
            decreases rest0.len() - i,
        {
            let c = rest[0][i];
            first.push(c);
            i = i + 1;
            proof {
                assert(first@ =~= seq![v@[from as int]] + rest0.take(i as int));
            }
        }
        let mut r: Vec<Vec<char>> = Vec::new();
        r.push(first);
        let mut k: usize = 1;
        while k < rest.len()
            invariant
                1 <= k <= rest@.len(),
                r@.len() == k,
                r@[0]@ == seq![v@[from as int]] + rest0.take(rest0.len() as int),
                rest0 == rest@[0]@,
                forall|j: int| 1 <= j < k ==> r@[j]@ == rest@[j]@,
            decreases rest@.len() - k,
        {
            let piece = rest[k].clone();
            assert(piece@ == rest@[k as int]@);
            r.push(piece);
            k = k + 1;
        }
        proof {
            let tail = v@.skip(from as int);
            assert(tail[0] == v@[from as int]);
            assert(tail[0] != sep);
            assert(tail.skip(1) =~= v@.skip(from + 1));
            let sr = split_chars(tail.skip(1), sep);
            assert(rest0.take(rest0.len() as int) =~= rest0);
            assert(rest@.map_values(|p: Vec<char>| p@) == sr);
            assert(rest0 == sr[0]);
            assert(r@.map_values(|p: Vec<char>| p@) =~= split_chars(tail, sep)) by {
                assert(split_chars(tail, sep) == seq![seq![tail[0]] + sr[0]] + sr.skip(1));
                assert(forall|j: int| 1 <= j < rest@.len() ==> #[trigger] r@[j]@ == sr[j]);
            }
        }
        r
    }
}

/// The pieces of `v` between occurrences of `sep`.
pub fn chars_split(v: &Vec<char>, sep: char) -> (r: Vec<Vec<char>>)
    ensures
        r@.map_values(|p: Vec<char>| p@) == split_chars(v@, sep),
        r@.len() >= 1,
{
    proof {
        lemma_split_chars_len(v@, sep);
        assert(v@.skip(0) =~= v@);
    }
    let r = split_chars_from(v, 0, sep);
    proof {
        assert(r@.map_values(|p: Vec<char>| p@).len() == split_chars(v@, sep).len());
    }
    r
}

/// Characters with every occurrence of `from` replaced by `to`.
pub open spec fn replace_char(s: Seq<char>, from: char, to: char) -> Seq<char> {
    s.map(|i: int, c: char| if c == from { to } else { c })
}

pub fn chars_replace(v: &Vec<char>, from: char, to: char) -> (r: Vec<char>)
    ensures
        r@ == replace_char(v@, from, to),
{
    let mut r: Vec<char> = Vec::new();
    let mut i: usize = 0;
    while i < v.len()
        invariant
            i <= v@.len(),
            r@ == replace_char(v@.take(i as int), from, to),
        decreases v@.len() - i,
    {
        let c = v[i];
        if c == from {
            r.push(to);
        } else {
            r.push(c);
        }
        i = i + 1;
        proof {
            assert(r@ =~= replace_char(v@.take(i as int), from, to));
        }
    }
    proof {
        assert(v@.take(v@.len() as int) =~= v@);
        assert(r@ =~= replace_char(v@, from, to));
    }
    r
}

/// The decimal digits of `n`, most significant first.
pub open spec fn dec_digits(n: nat) -> Seq<char>
    decreases n,
{
    if n < 10 {
        seq![digit_char(n)]
    } else {
        dec_digits(n / 10).push(digit_char(n % 10))
    }
}

pub open spec fn digit_char(d: nat) -> char {
    if d == 0 {
        '0'
    } else if d == 1 {
        '1'
    } else if d == 2 {
        '2'
    } else if d == 3 {
        '3'
    } else if d == 4 {
        '4'
    } else if d == 5 {
        '5'
    } else if d == 6 {
        '6'
    } else if d == 7 {
        '7'
    } else if d == 8 {
        '8'
    } else {
        '9'
    }
}

fn digit_char_exec(d: u64) -> (r: char)
    requires
        d < 10,
    ensures
        r == digit_char(d as nat),
{
    if d == 0 {
        '0'
    } else if d == 1 {
        '1'
    } else if d == 2 {
        '2'
    } else if d == 3 {
        '3'
    } else if d == 4 {
        '4'
    } else if d == 5 {
        '5'
    } else if d == 6 {
        '6'
    } else if d == 7 {
        '7'
    } else if d == 8 {
        '8'
    } else {
        '9'
    }
}

fn u64_digits(n: u64) -> (r: Vec<char>)
    ensures
        r@ == dec_digits(n as nat),
    decreases n,
{
    if n < 10 {
        let mut r: Vec<char> = Vec::new();
        r.push(digit_char_exec(n));
        proof {
            assert(r@ =~= dec_digits(n as nat));
        }
        r
    } else {
        let mut r = u64_digits(n / 10);
        r.push(digit_char_exec(n % 10));
        r
    }
}

/// The decimal representation of `n`.
pub fn u64_string(n: u64) -> (r: String)
    ensures
        r@ == dec_digits(n as nat),
{
    let v = u64_digits(n);
    chars_string(&v)
}

/// Levenshtein edit distance between two character sequences: the least
/// number of single-character insertions, deletions and substitutions that
/// turns one into the other.
pub open spec fn lev(a: Seq<char>, b: Seq<char>) -> nat
    decreases a.len() + b.len(),
{
    if a.len() == 0 {
        b.len()
    } else if b.len() == 0 {
        a.len()
    } else {
        let cost: nat = if a.last() == b.last() {
            0
        } else {
            1
        };
        min3(lev(a.drop_last(), b) + 1, lev(a, b.drop_last()) + 1, lev(
            a.drop_last(),
            b.drop_last(),
        ) + cost)
    }
}

pub open spec fn min3(x: nat, y: nat, z: nat) -> nat {
    if x <= y && x <= z {
        x
    } else if y <= z {
        y
    } else {
        z
    }
}

pub proof fn lemma_lev_bound(a: Seq<char>, b: Seq<char>)
    ensures
        lev(a, b) <= a.len() + b.len(),
    decreases a.len() + b.len(),
{
    if a.len() == 0 {
    } else if b.len() == 0 {
    } else {
        lemma_lev_bound(a.drop_last(), b);
        lemma_lev_bound(a, b.drop_last());
        lemma_lev_bound(a.drop_last(), b.drop_last());
    }
}

/// Computes the edit distance by dynamic programming over prefixes.
/// The result is widened so that no intermediate sum can overflow.
pub fn levenshtein(a: &Vec<char>, b: &Vec<char>) -> (r: u128)
    ensures
        r == lev(a@, b@),
{
    let la = a.len();
    let lb = b.len();
    if la == 0 {
        return lb as u128;
    }
    if lb == 0 {
        return la as u128;
    }
    // row holds the distances for the current prefix of `a`:
    // row[j] == lev(a.take(i), b.take(j))
    let mut row: Vec<u128> = Vec::new();
    while row.len() <= lb
        invariant
            lb == b@.len(),
            row@.len() <= lb + 1,
            forall|k: int| 0 <= k < row@.len() ==> row@[k] == lev(a@.take(0), b@.take(k)),
        decreases lb + 1 - row@.len(),
    {
        let j = row.len();
        proof {
            assert(a@.take(0) =~= Seq::<char>::empty());
            assert(b@.take(j as int).len() == j);
        }
        row.push(j as u128);
    }
    let mut i: usize = 1;
    loop
        invariant_except_break
            la == a@.len(),
            lb == b@.len(),
            la >= 1,
            lb >= 1,
            1 <= i <= la,
            row@.len() == lb + 1,
            forall|k: int| 0 <= k <= lb ==> row@[k] == lev(a@.take(i - 1), b@.take(k)),
        ensures
            row@.len() == lb + 1,
            row@[lb as int] == lev(a@.take(la as int), b@.take(lb as int)),
        decreases la - i,
    {
        let mut new_row: Vec<u128> = Vec::new();
        proof {
            assert(b@.take(0) =~= Seq::<char>::empty());
            assert(a@.take(i as int).len() == i);
        }
        new_row.push(i as u128);
        while new_row.len() <= lb
            invariant
                la == a@.len(),
                lb == b@.len(),
                1 <= i <= la,
                1 <= new_row@.len() <= lb + 1,
                row@.len() == lb + 1,
                forall|m: int| 0 <= m <= lb ==> row@[m] == lev(a@.take(i - 1), b@.take(m)),
                forall|m: int|
                    0 <= m < new_row@.len() ==> new_row@[m] == lev(
                        a@.take(i as int),
                        b@.take(m),
                    ),
            decreases lb + 1 - new_row@.len(),
        {
            let k = new_row.len();
            let cost: u128 = if a[i - 1] == b[k - 1] {
                0
            } else {
                1
            };
            proof {
                let ai = a@.take(i as int);
                let bk = b@.take(k as int);
                assert(ai.len() == i && bk.len() == k);
                assert(ai.last() == a@[i - 1]);
                assert(bk.last() == b@[k - 1]);
                assert(ai.drop_last() =~= a@.take(i - 1));
                assert(bk.drop_last() =~= b@.take(k - 1));
                lemma_lev_bound(ai.drop_last(), bk);
                lemma_lev_bound(ai, bk.drop_last());
                lemma_lev_bound(ai.drop_last(), bk.drop_last());
                lemma_lev_bound(a@.take(0), bk);
            }
            let del: u128 = row[k] + 1;
            let ins: u128 = new_row[k - 1] + 1;
            let sub: u128 = row[k - 1] + cost;
            let mut best = del;
            if ins < best {
                best = ins;
            }
            if sub < best {
                best = sub;
            }
            assert(best == min3((del as nat), (ins as nat), (sub as nat)));
            new_row.push(best);
        }
        row = new_row;
        if i == la {
            break ;
        }
        i = i + 1;
    }
    proof {
        assert(a@.take(la as int) =~= a@);
        assert(b@.take(lb as int) =~= b@);
    }
    row[lb]
}

/// The edit distance is at least the length difference of the two sequences.
pub proof fn lemma_lev_ge_diff(a: Seq<char>, b: Seq<char>)
    ensures
        lev(a, b) + a.len() >= b.len(),
        lev(a, b) + b.len() >= a.len(),
    decreases a.len() + b.len(),
{
    if a.len() == 0 {
    } else if b.len() == 0 {
    } else {
        lemma_lev_ge_diff(a.drop_last(), b);
        lemma_lev_ge_diff(a, b.drop_last());
        lemma_lev_ge_diff(a.drop_last(), b.drop_last());
    }
}

} // verus!

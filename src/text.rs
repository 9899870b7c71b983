use vstd::prelude::*;

verus! {

/// `items` joined with `sep` between each two neighbours.
pub open spec fn join(items: Seq<Seq<char>>, sep: Seq<char>) -> Seq<char>
    decreases items.len(),
{
    if items.len() == 0 {
        seq![]
    } else if items.len() == 1 {
        items[0]
    } else {
        join(items.drop_last(), sep) + sep + items.last()
    }
}

pub open spec fn texts_view(v: Seq<String>) -> Seq<Seq<char>> {
    v.map_values(|s: String| s@)
}

/// Joins the texts of `v` with `sep` between each two neighbours.
pub fn write_vec_sep(v: &Vec<String>, sep: &str) -> (r: String)
    ensures
        r@ == join(texts_view(v@), sep@),
{
    let mut out = String::new();
    let mut i: usize = 0;
    while i < v.len()
        invariant
            0 <= i <= v@.len(),
            out@ == join(texts_view(v@.take(i as int)), sep@),
        decreases v@.len() - i,
    {
        assert(texts_view(v@.take(i as int + 1)).drop_last() =~= texts_view(v@.take(i as int)));
        assert(texts_view(v@.take(i as int + 1)).last() == v@[i as int]@);
        if i == 0 {
            out = v[i].clone();
            assert(texts_view(v@.take(1)) =~= seq![v@[0]@]);
        } else {
            out.append(sep);
            out.append(v[i].as_str());
        }
        i = i + 1;
    }
    assert(v@.take(i as int) =~= v@);
    out
}

/// The text of one decimal digit.
pub open spec fn digit_text(d: nat) -> Seq<char> {
    if d == 0 {
        "0"@
    } else if d == 1 {
        "1"@
    } else if d == 2 {
        "2"@
    } else if d == 3 {
        "3"@
    } else if d == 4 {
        "4"@
    } else if d == 5 {
        "5"@
    } else if d == 6 {
        "6"@
    } else if d == 7 {
        "7"@
    } else if d == 8 {
        "8"@
    } else {
        "9"@
    }
}

/// The decimal text of a number, without leading zeros.
pub open spec fn decimal_text(n: nat) -> Seq<char>
    decreases n,
{
    if n < 10 {
        digit_text(n)
    } else {
        decimal_text(n / 10) + digit_text(n % 10)
    }
}

fn digit_str(d: u64) -> (r: &'static str)
    requires
        d < 10,
    ensures
        r@ == digit_text(d as nat),
{
    match d {
        0 => "0",
        1 => "1",
        2 => "2",
        3 => "3",
        4 => "4",
        5 => "5",
        6 => "6",
        7 => "7",
        8 => "8",
        _ => "9",
    }
}

/// The decimal text of `n`.
pub fn decimal(n: u64) -> (r: String)
    ensures
        r@ == decimal_text(n as nat),
    decreases n,
{
    if n < 10 {
        String::from_str(digit_str(n))
    } else {
        let mut s = decimal(n / 10);
        s.append(digit_str(n % 10));
        s
    }
}

/// The texts of a list of small numbers.
pub open spec fn numbers_text(v: Seq<u8>) -> Seq<Seq<char>> {
    v.map_values(|n: u8| decimal_text(n as nat))
}

/// The decimal texts of the numbers of `v`, in order.
pub fn decimals(v: &Vec<u8>) -> (r: Vec<String>)
    ensures
        texts_view(r@) == numbers_text(v@),
{
    let mut out: Vec<String> = Vec::new();
    let mut i: usize = 0;
    while i < v.len()
        invariant
            0 <= i <= v@.len(),
            texts_view(out@) =~= numbers_text(v@.take(i as int)),
        decreases v@.len() - i,
    {
        let ghost before = out@;
        let t = decimal(v[i] as u64);
        out.push(t);
        assert(texts_view(out@) =~= texts_view(before).push(decimal_text(v@[i as int] as nat)));
        assert(v@.take(i as int + 1) =~= v@.take(i as int).push(v@[i as int]));
        assert(numbers_text(v@.take(i as int + 1)) =~= numbers_text(v@.take(i as int)).push(decimal_text(v@[i as int] as nat)));
        i = i + 1;
    }
    assert(v@.take(i as int) =~= v@);
    out
}


/// Lexicographic order on texts, character by character, a proper prefix
/// coming first: the order of `str`.
pub open spec fn text_lt(a: Seq<char>, b: Seq<char>) -> bool
    decreases a.len(),
{
    if a.len() == 0 {
        b.len() > 0
    } else if b.len() == 0 {
        false
    } else if a[0] != b[0] {
        a[0] < b[0]
    } else {
        text_lt(a.drop_first(), b.drop_first())
    }
}

/// No text comes before itself.
pub proof fn text_lt_irreflexive(a: Seq<char>)
    ensures
        !text_lt(a, a),
    decreases a.len(),
{
    if a.len() > 0 {
        text_lt_irreflexive(a.drop_first());
    }
}

/// The order on texts is transitive.
pub proof fn text_lt_transitive(a: Seq<char>, b: Seq<char>, c: Seq<char>)
    requires
        text_lt(a, b),
        text_lt(b, c),
    ensures
        text_lt(a, c),
    decreases a.len(),
{
    if a.len() > 0 && a[0] == b[0] && b[0] == c[0] {
        text_lt_transitive(a.drop_first(), b.drop_first(), c.drop_first());
    }
}

/// Two distinct texts are ordered one way or the other.
pub proof fn text_lt_total(a: Seq<char>, b: Seq<char>)
    requires
        a != b,
    ensures
        text_lt(a, b) || text_lt(b, a),
    decreases a.len(),
{
    if a.len() > 0 && b.len() > 0 && a[0] == b[0] {
        if a.drop_first() == b.drop_first() {
            assert(a =~= seq![a[0]] + a.drop_first());
            assert(b =~= seq![b[0]] + b.drop_first());
        } else {
            text_lt_total(a.drop_first(), b.drop_first());
        }
    } else if a.len() == 0 && b.len() == 0 {
        assert(a =~= b);
    }
}

/// Whether `a` comes before `b` in the order of texts.
pub fn text_less(a: &str, b: &str) -> (r: bool)
    ensures
        r == text_lt(a@, b@),
{
    let n = a.unicode_len();
    let m = b.unicode_len();
    let mut i: usize = 0;
    assert(a@.skip(0) =~= a@);
    assert(b@.skip(0) =~= b@);
    while i < n && i < m
        invariant
            i <= n,
            i <= m,
            n == a@.len(),
            m == b@.len(),
            text_lt(a@, b@) == text_lt(a@.skip(i as int), b@.skip(i as int)),
        decreases n - i,
    {
        let x = a.get_char(i);
        let y = b.get_char(i);
        assert(a@.skip(i as int)[0] == x);
        assert(b@.skip(i as int)[0] == y);
        if x != y {
            return x < y;
        }
        assert(a@.skip(i as int).drop_first() =~= a@.skip(i as int + 1));
        assert(b@.skip(i as int).drop_first() =~= b@.skip(i as int + 1));
        i = i + 1;
    }
    assert(a@.skip(i as int).len() == n - i);
    assert(b@.skip(i as int).len() == m - i);
    i == n && i < m
}

/// Texts in strictly increasing order (so without duplicates).
pub open spec fn texts_sorted(s: Seq<Seq<char>>) -> bool {
    forall|i: int, j: int| 0 <= i < j < s.len() ==> text_lt(#[trigger] s[i], #[trigger] s[j])
}

/// Position `p` of the sorted texts `s` is where `t` belongs: everything
/// before it comes before `t`, everything from it on comes after `t`.
pub open spec fn slot_of(s: Seq<Seq<char>>, t: Seq<char>, p: int) -> bool {
    &&& 0 <= p <= s.len()
    &&& forall|k: int| 0 <= k < p ==> text_lt(#[trigger] s[k], t)
    &&& forall|k: int| p <= k < s.len() ==> text_lt(t, #[trigger] s[k])
}

/// A slot is unique.
pub proof fn slot_unique(s: Seq<Seq<char>>, t: Seq<char>, p: int, q: int)
    requires
        slot_of(s, t, p),
        slot_of(s, t, q),
    ensures
        p == q,
{
    if p < q {
        text_lt_transitive(t, s[p], t);
        text_lt_irreflexive(t);
    } else if q < p {
        text_lt_transitive(t, s[q], t);
        text_lt_irreflexive(t);
    }
}

/// A text that is not among sorted texts has a slot among them.
pub proof fn slot_exists(s: Seq<Seq<char>>, t: Seq<char>)
    requires
        texts_sorted(s),
        !s.contains(t),
    ensures
        exists|p: int| slot_of(s, t, p),
    decreases s.len(),
{
    if s.len() == 0 {
        assert(slot_of(s, t, 0));
    } else {
        let l = s.len() - 1;
        if text_lt(s[l], t) {
            assert forall|k: int| 0 <= k < s.len() implies text_lt(#[trigger] s[k], t) by {
                if k < l {
                    text_lt_transitive(s[k], s[l], t);
                }
            }
            assert(slot_of(s, t, s.len() as int));
        } else {
            assert(s[l] != t);
            text_lt_total(s[l], t);
            let d = s.drop_last();
            assert forall|i: int, j: int| 0 <= i < j < d.len() implies text_lt(#[trigger] d[i], #[trigger] d[j]) by {
                assert(d[i] == s[i] && d[j] == s[j]);
            }
            assert(!d.contains(t)) by {
                if d.contains(t) {
                    let k = choose|k: int| 0 <= k < d.len() && d[k] == t;
                    assert(s[k] == t);
                }
            }
            slot_exists(d, t);
            let p = choose|p: int| slot_of(d, t, p);
            assert forall|k: int| 0 <= k < p implies text_lt(#[trigger] s[k], t) by {
                assert(s[k] == d[k]);
            }
            assert forall|k: int| p <= k < s.len() implies text_lt(t, #[trigger] s[k]) by {
                if k < l {
                    assert(s[k] == d[k]);
                }
            }
            assert(slot_of(s, t, p));
        }
    }
}

/// Inserting a text at its slot keeps texts sorted.
pub proof fn slot_insert_sorted(s: Seq<Seq<char>>, t: Seq<char>, p: int)
    requires
        texts_sorted(s),
        slot_of(s, t, p),
    ensures
        texts_sorted(s.insert(p, t)),
{
    let r = s.insert(p, t);
    assert forall|i: int, j: int| 0 <= i < j < r.len() implies text_lt(#[trigger] r[i], #[trigger] r[j]) by {
        if j < p {
            assert(r[i] == s[i] && r[j] == s[j]);
        } else if j == p {
            assert(r[i] == s[i]);
        } else if i < p {
            assert(r[i] == s[i] && r[j] == s[j - 1]);
            text_lt_transitive(s[i], t, s[j - 1]);
        } else if i == p {
            assert(r[j] == s[j - 1]);
        } else {
            assert(r[i] == s[i - 1] && r[j] == s[j - 1]);
        }
    }
}


/// Whether two texts are the same.
pub fn same_text(a: &str, b: &str) -> (r: bool)
    ensures
        r == (a@ == b@),
{
    let lt = text_less(a, b);
    let gt = text_less(b, a);
    proof {
        if a@ == b@ {
            text_lt_irreflexive(a@);
        } else {
            text_lt_total(a@, b@);
        }
    }
    !lt && !gt
}

/// The lower-case form of a text, as `str::to_lowercase` gives it.
pub uninterp spec fn lower_of(s: Seq<char>) -> Seq<char>;

/// Relies on `str::to_lowercase`: the result depends on the characters
/// alone.
#[verifier::external_body]
pub(crate) fn lowercase(s: &str) -> (r: String)
    ensures
        r@ == lower_of(s@),
{
    s.to_lowercase()
}

} // verus!

//! How protocol names become Rust names: `wl_shm_pool` is the type
//! `WlShmPool`, the enum entry `270` is the variant `N270`, the enum
//! `wl_output.transform` is `WlOutputTransform`, and the sender of a
//! `zwlr_layer_surface_v1` event is called `layer_surface`.
use vstd::prelude::*;

verus! {

/// What `char::to_uppercase` gives for `c`: its uppercase mapping, one or
/// more chars.
pub uninterp spec fn uppercase(c: char) -> Seq<char>;

/// `char::to_uppercase`, collected. An ASCII char maps to the one char
/// `to_ascii_uppercase` gives: `a` to `z` up to `A` to `Z`, any other
/// unchanged.
#[verifier::external_body]
fn upper(c: char) -> (r: Vec<char>)
    ensures
        r@ == uppercase(c),
        ('a' <= c && c <= 'z') ==> r@ == seq![((c as u32) - 32) as char],
        (c as u32) < 128 && !('a' <= c && c <= 'z') ==> r@ == seq![c],
{
    c.to_uppercase().collect()
}

/// The chars of `s`, in order.
fn chars_of(s: &str) -> (r: Vec<char>)
    ensures
        r@ == s@,
{
    let n = s.unicode_len();
    let mut out: Vec<char> = Vec::new();
    let mut i: usize = 0;
    while i < n
        invariant
            n == s@.len(),
            i <= n,
            out@ == s@.take(i as int),
        decreases n - i,
    {
        out.push(s.get_char(i));
        i = i + 1;
        assert(out@ =~= s@.take(i as int));
    }
    assert(s@.take(n as int) =~= s@);
    out
}

/// A `String` of these chars, in order.
#[verifier::external_body]
fn string_of(cs: &[char]) -> (r: String)
    ensures
        r@ == cs@,
{
    cs.iter().collect()
}

/// What uppercasing `c` gives: for an ASCII char, `a` to `z` up to `A` to
/// `Z` and any other unchanged; beyond ASCII, `char::to_uppercase`.
pub open spec fn upper_of(c: char) -> Seq<char> {
    if 'a' <= c && c <= 'z' {
        seq![((c as u32) - 32) as char]
    } else if (c as u32) < 128 {
        seq![c]
    } else {
        uppercase(c)
    }
}

/// `s` in PascalCase from where a word starts (`word_start`) or goes on:
/// each `_` is dropped and the char after it uppercased.
pub open spec fn pascal_from(s: Seq<char>, word_start: bool) -> Seq<char>
    decreases s.len(),
{
    if s.len() == 0 {
        Seq::empty()
    } else if s[0] == '_' {
        pascal_from(s.drop_first(), true)
    } else if word_start {
        upper_of(s[0]) + pascal_from(s.drop_first(), false)
    } else {
        seq![s[0]] + pascal_from(s.drop_first(), false)
    }
}

/// `s` from where a word starts, then `_` and `t`: the two run together.
proof fn lemma_pascal_from_join(s: Seq<char>, t: Seq<char>, word_start: bool)
    ensures
        pascal_from(s + seq!['_'] + t, word_start) == pascal_from(s, word_start) + pascal_from(t, true),
    decreases s.len(),
{
    let whole = s + seq!['_'] + t;
    if s.len() == 0 {
        assert(whole =~= seq!['_'] + t);
        assert(whole.drop_first() =~= t);
        assert(pascal_from(s, word_start) =~= Seq::<char>::empty());
        assert(pascal_from(whole, word_start) =~= pascal_from(s, word_start) + pascal_from(t, true));
    } else {
        assert(whole[0] == s[0]);
        assert(whole.drop_first() =~= s.drop_first() + seq!['_'] + t);
        if s[0] == '_' {
            lemma_pascal_from_join(s.drop_first(), t, true);
        } else {
            lemma_pascal_from_join(s.drop_first(), t, false);
            if word_start {
                assert(pascal_from(whole, word_start) =~= pascal_from(s, word_start) + pascal_from(t, true));
            } else {
                assert(pascal_from(whole, word_start) =~= pascal_from(s, word_start) + pascal_from(t, true));
            }
        }
    }
}

/// The rest of a word with no `_` is kept as it is.
proof fn lemma_pascal_from_rest(w: Seq<char>)
    requires
        forall|i: int| 0 <= i < w.len() ==> w[i] != '_',
    ensures
        pascal_from(w, false) == w,
    decreases w.len(),
{
    if w.len() > 0 {
        lemma_pascal_from_rest(w.drop_first());
        assert(seq![w[0]] + w.drop_first() =~= w);
    }
}

/// `snake_case` names become PascalCase word by word: the name of two
/// parts joined by `_` is the two names run together, with the `_` gone.
pub proof fn law_pascal_joins_words(a: Seq<char>, b: Seq<char>)
    ensures
        pascal(a + seq!['_'] + b) == pascal(a) + pascal(b),
{
    lemma_pascal_from_join(a, b, true);
}

/// One word in lower case, with no `_`: its first letter goes up to
/// upper case, the rest stays as it is. So `wl` is `Wl`, and with
/// [`law_pascal_joins_words`], `wl_shm_pool` is `WlShmPool`.
pub proof fn law_pascal_of_a_word(w: Seq<char>)
    requires
        w.len() > 0,
        'a' <= w[0] && w[0] <= 'z',
        forall|i: int| 0 <= i < w.len() ==> w[i] != '_',
    ensures
        pascal(w) == seq![((w[0] as u32) - 32) as char] + w.drop_first(),
{
    assert forall|i: int| 0 <= i < w.drop_first().len() implies w.drop_first()[i] != '_' by {
        assert(w.drop_first()[i] == w[i + 1]);
    }
    lemma_pascal_from_rest(w.drop_first());
}

/// `snake_case` to `PascalCase`: split at `_`, the first char of every
/// part uppercased, the parts joined.
pub open spec fn pascal(s: Seq<char>) -> Seq<char> {
    pascal_from(s, true)
}

pub open spec fn is_ascii_digit(c: char) -> bool {
    '0' <= c && c <= '9'
}

/// An enum entry's variant: its PascalCase name, with an `N` in front
/// when that starts with a digit.
pub open spec fn variant(s: Seq<char>) -> Seq<char> {
    let p = pascal(s);
    if p.len() > 0 && is_ascii_digit(p[0]) {
        seq!['N'] + p
    } else {
        p
    }
}

/// The vendor prefixes a sender's name loses, in the order tried.
pub open spec fn vendor_prefixes() -> Seq<Seq<char>> {
    seq![
        seq!['w', 'l', '_'],
        seq!['x', 'd', 'g', '_'],
        seq!['z', 'w', 'l', 'r', '_'],
        seq!['z', 'w', 'p', '_'],
        seq!['e', 'x', 't', '_'],
        seq!['w', 'p', '_'],
    ]
}

pub open spec fn has_prefix(s: Seq<char>, p: Seq<char>) -> bool {
    p.len() <= s.len() && s.subrange(0, p.len() as int) == p
}

/// `s` without the first of `prefixes` it starts with, if any.
pub open spec fn strip_first(s: Seq<char>, prefixes: Seq<Seq<char>>) -> Seq<char>
    decreases prefixes.len(),
{
    if prefixes.len() == 0 {
        s
    } else if has_prefix(s, prefixes[0]) {
        s.skip(prefixes[0].len() as int)
    } else {
        strip_first(s, prefixes.drop_first())
    }
}

/// The last `_v` among the first `n` positions of `s`, by the index of
/// its `_`.
pub open spec fn last_v(s: Seq<char>, n: nat) -> Option<int>
    decreases n,
{
    if n == 0 {
        None
    } else if n < s.len() && s[n - 1] == '_' && s[n as int] == 'v' {
        Some(n - 1)
    } else {
        last_v(s, (n - 1) as nat)
    }
}

/// `s` without a trailing `_v` and version number.
pub open spec fn unversioned(s: Seq<char>) -> Seq<char> {
    match last_v(s, s.len()) {
        Some(i) => if i + 2 < s.len() && forall|j: int| i + 2 <= j < s.len() ==> is_ascii_digit(
            #[trigger] s[j],
        ) {
            s.take(i)
        } else {
            s
        },
        None => s,
    }
}

/// An interface's name for the sender of its events: without its vendor
/// prefix and its version suffix.
pub open spec fn sender(iface: Seq<char>) -> Seq<char> {
    unversioned(strip_first(iface, vendor_prefixes()))
}

/// Whether `s` starts with `p`.
fn starts_with_chars(s: &[char], p: &[char]) -> (r: bool)
    ensures
        r == has_prefix(s@, p@),
{
    if p.len() > s.len() {
        return false;
    }
    let mut i: usize = 0;
    while i < p.len()
        invariant
            p@.len() <= s@.len(),
            i <= p@.len(),
            forall|j: int| 0 <= j < i ==> s@[j] == p@[j],
        decreases p@.len() - i,
    {
        if s[i] != p[i] {
            assert(s@.subrange(0, p@.len() as int)[i as int] != p@[i as int]);
            return false;
        }
        i = i + 1;
    }
    assert(s@.subrange(0, p@.len() as int) =~= p@);
    true
}

/// `snake_case` to `PascalCase`.
pub fn to_pascal(s: &str) -> (r: String)
    ensures
        r@ == pascal(s@),
{
    let cs = chars_of(s);
    let ghost whole = cs@;
    let mut out: Vec<char> = Vec::new();
    let mut word_start = true;
    let mut i: usize = 0;
    assert(whole.skip(0) =~= whole);
    while i < cs.len()
        invariant
            i <= cs@.len(),
            cs@ == whole,
            out@ + pascal_from(whole.skip(i as int), word_start) == pascal(whole),
        decreases cs@.len() - i,
    {
        let c = cs[i];
        proof {
            assert(whole.skip(i as int).drop_first() =~= whole.skip(i + 1));
            assert(whole.skip(i as int)[0] == c);
        }
        let ghost before = out@;
        if c == '_' {
            word_start = true;
        } else if word_start {
            let up = upper(c);
            let mut k: usize = 0;
            while k < up.len()
                invariant
                    k <= up@.len(),
                    out@ == before + up@.take(k as int),
                decreases up@.len() - k,
            {
                out.push(up[k]);
                assert(up@.take(k + 1) =~= up@.take(k as int).push(up@[k as int]));
                k = k + 1;
            }
            assert(up@.take(up@.len() as int) =~= up@);
            assert(before + upper_of(c) + pascal_from(whole.skip(i + 1), false) =~= before + (
            upper_of(c) + pascal_from(whole.skip(i + 1), false)));
            word_start = false;
        } else {
            out.push(c);
            assert(before.push(c) + pascal_from(whole.skip(i + 1), false) =~= before + (seq![c]
                + pascal_from(whole.skip(i + 1), false)));
        }
        i = i + 1;
    }
    assert(pascal_from(whole.skip(i as int), word_start) =~= Seq::<char>::empty());
    assert(out@ + Seq::<char>::empty() =~= out@);
    string_of(out.as_slice())
}

/// An enum entry's variant name: PascalCase, with an `N` in front when it
/// would start with a digit.
pub fn variant_name(s: &str) -> (r: String)
    ensures
        r@ == variant(s@),
{
    let p = to_pascal(s);
    let cs = chars_of(p.as_str());
    if cs.len() > 0 && '0' <= cs[0] && cs[0] <= '9' {
        let mut out: Vec<char> = Vec::new();
        out.push('N');
        let mut k: usize = 0;
        while k < cs.len()
            invariant
                k <= cs@.len(),
                out@ == seq!['N'] + cs@.take(k as int),
            decreases cs@.len() - k,
        {
            out.push(cs[k]);
            assert(cs@.take(k + 1) =~= cs@.take(k as int).push(cs@[k as int]));
            k = k + 1;
        }
        assert(cs@.take(cs@.len() as int) =~= cs@);
        string_of(out.as_slice())
    } else {
        p
    }
}

/// The vendor prefixes, as char arrays, in the order tried.
fn prefix_at(k: usize) -> (p: Vec<char>)
    requires
        k < 6,
    ensures
        p@ == vendor_prefixes()[k as int],
{
    if k == 0 {
        vec!['w', 'l', '_']
    } else if k == 1 {
        vec!['x', 'd', 'g', '_']
    } else if k == 2 {
        vec!['z', 'w', 'l', 'r', '_']
    } else if k == 3 {
        vec!['z', 'w', 'p', '_']
    } else if k == 4 {
        vec!['e', 'x', 't', '_']
    } else {
        vec!['w', 'p', '_']
    }
}

/// An interface's name for the sender of its events: `wl_surface` is
/// `surface`, `zwlr_layer_surface_v1` is `layer_surface`.
pub fn sender_name(iface: &str) -> (r: String)
    ensures
        r@ == sender(iface@),
{
    let all = chars_of(iface);
    // The vendor prefix.
    let mut start: usize = 0;
    let mut k: usize = 0;
    assert(vendor_prefixes().skip(0) =~= vendor_prefixes());
    assert(vendor_prefixes().skip(6) =~= Seq::<Seq<char>>::empty());
    assert(all@.skip(0) =~= all@);
    while k < 6
        invariant_except_break
            k <= 6,
            start == 0,
            strip_first(all@, vendor_prefixes()) == strip_first(all@, vendor_prefixes().skip(k as int)),
        invariant
            vendor_prefixes().skip(6) == Seq::<Seq<char>>::empty(),
            all@.skip(0) == all@,
        ensures
            start <= all@.len(),
            strip_first(all@, vendor_prefixes()) == all@.skip(start as int),
        decreases 6 - k,
    {
        let p = prefix_at(k);
        proof {
            assert(vendor_prefixes().skip(k as int).drop_first() =~= vendor_prefixes().skip(k + 1));
            assert(vendor_prefixes().skip(k as int)[0] == vendor_prefixes()[k as int]);
        }
        if starts_with_chars(all.as_slice(), p.as_slice()) {
            start = p.len();
            break;
        }
        k = k + 1;
    }
    let ghost stripped = strip_first(all@, vendor_prefixes());
    let mut s: Vec<char> = Vec::new();
    let mut j: usize = start;
    while j < all.len()
        invariant
            start <= j <= all@.len(),
            s@ == all@.subrange(start as int, j as int),
        decreases all@.len() - j,
    {
        s.push(all[j]);
        assert(all@.subrange(start as int, j + 1) =~= all@.subrange(start as int, j as int).push(
            all@[j as int],
        ));
        j = j + 1;
    }
    assert(s@ =~= stripped);
    // The version suffix: the last `_v`, then digits to the end.
    let mut n: usize = s.len();
    let mut found: Option<usize> = None;
    while n > 0
        invariant_except_break
            n <= s@.len(),
            last_v(s@, s@.len()) == last_v(s@, n as nat),
            found is None,
        ensures
            match found {
                Some(i) => last_v(s@, s@.len()) == Some(i as int) && i + 1 < s@.len(),
                None => last_v(s@, s@.len()) is None,
            },
        decreases n,
    {
        if n < s.len() && s[n - 1] == '_' && s[n] == 'v' {
            found = Some(n - 1);
            break;
        }
        n = n - 1;
    }
    let cut = match found {
        Some(i) => {
            assert(last_v(s@, s@.len()) == Some(i as int));
            let mut digits = i + 2 < s.len();
            let mut m: usize = i + 2;
            while m < s.len()
                invariant
                    i + 2 <= m <= s@.len(),
                    last_v(s@, s@.len()) == Some(i as int),
                    digits ==> i + 2 < s@.len(),
                    digits ==> forall|q: int| i + 2 <= q < m ==> is_ascii_digit(#[trigger] s@[q]),
                    !digits ==> !(i + 2 < s@.len() && forall|q: int|
                        i + 2 <= q < s@.len() ==> is_ascii_digit(#[trigger] s@[q])),
                decreases s@.len() - m,
            {
                if !('0' <= s[m] && s[m] <= '9') {
                    assert(!is_ascii_digit(s@[m as int]));
                    digits = false;
                }
                m = m + 1;
            }
            if digits {
                assert(s@.take(i as int) == unversioned(s@));
                i
            } else {
                assert(s@.take(s@.len() as int) =~= s@);
                s.len()
            }
        },
        None => {
            assert(s@.take(s@.len() as int) =~= s@);
            s.len()
        },
    };
    let mut out: Vec<char> = Vec::new();
    let mut q: usize = 0;
    while q < cut
        invariant
            cut <= s@.len(),
            q <= cut,
            out@ == s@.take(q as int),
        decreases cut - q,
    {
        out.push(s[q]);
        assert(s@.take(q + 1) =~= s@.take(q as int).push(s@[q as int]));
        q = q + 1;
    }
    assert(s@.take(cut as int) == unversioned(s@));
    string_of(out.as_slice())
}

/// Where the first `.` of `s` is, if any.
pub open spec fn first_dot(s: Seq<char>) -> Option<int> {
    if exists|i: int| 0 <= i < s.len() && s[i] == '.' {
        Some(choose|i: int| 0 <= i < s.len() && s[i] == '.' && forall|k: int| 0 <= k < i ==> s[k] != '.')
    } else {
        None
    }
}

/// An enum's type name: `iface.enum` names another interface's enum,
/// a bare `enum` one of `iface`'s own; both in PascalCase, run together.
pub open spec fn enum_type(iface: Seq<char>, attr: Seq<char>) -> Seq<char> {
    match first_dot(attr) {
        Some(i) => pascal(attr.take(i)) + pascal(attr.skip(i + 1)),
        None => pascal(iface) + pascal(attr),
    }
}

/// These chars, one after the other.
fn joined_chars(a: &[char], b: &[char]) -> (r: Vec<char>)
    ensures
        r@ == a@ + b@,
{
    let mut out: Vec<char> = Vec::new();
    let mut i: usize = 0;
    while i < a.len()
        invariant
            i <= a@.len(),
            out@ == a@.take(i as int),
        decreases a@.len() - i,
    {
        out.push(a[i]);
        assert(a@.take(i + 1) =~= a@.take(i as int).push(a@[i as int]));
        i = i + 1;
    }
    let mut j: usize = 0;
    while j < b.len()
        invariant
            j <= b@.len(),
            a@.take(a@.len() as int) == a@,
            out@ == a@ + b@.take(j as int),
        decreases b@.len() - j,
    {
        out.push(b[j]);
        assert(b@.take(j + 1) =~= b@.take(j as int).push(b@[j as int]));
        j = j + 1;
    }
    assert(b@.take(b@.len() as int) =~= b@);
    out
}

/// The chars of `s` from `from` up to `to`.
fn chars_between(s: &[char], from: usize, to: usize) -> (r: Vec<char>)
    requires
        from <= to <= s@.len(),
    ensures
        r@ == s@.subrange(from as int, to as int),
{
    let mut out: Vec<char> = Vec::new();
    let mut i: usize = from;
    while i < to
        invariant
            from <= i <= to,
            to <= s@.len(),
            out@ == s@.subrange(from as int, i as int),
        decreases to - i,
    {
        out.push(s[i]);
        assert(s@.subrange(from as int, i + 1) =~= s@.subrange(from as int, i as int).push(s@[i as int]));
        i = i + 1;
    }
    out
}

/// An enum's type name, from the interface it is used in and the `enum`
/// attribute naming it: `wl_output.transform` is `WlOutputTransform`.
pub fn enum_ident(iface: &str, attr: &str) -> (r: String)
    ensures
        r@ == enum_type(iface@, attr@),
{
    let a = chars_of(attr);
    let mut dot: usize = 0;
    while dot < a.len()
        invariant
            dot <= a@.len(),
            forall|k: int| 0 <= k < dot ==> a@[k] != '.',
        ensures
            dot <= a@.len(),
            forall|k: int| 0 <= k < dot ==> a@[k] != '.',
            dot < a@.len() ==> a@[dot as int] == '.',
        decreases a@.len() - dot,
    {
        if a[dot] == '.' {
            break;
        }
        dot = dot + 1;
    }
    let (first, second) = if dot < a.len() {
        proof {
            assert(a@[dot as int] == '.');
            let j = choose|j: int| 0 <= j < a@.len() && a@[j] == '.' && forall|k: int|
                0 <= k < j ==> a@[k] != '.';
            assert(0 <= j < a@.len() && a@[j] == '.' && forall|k: int| 0 <= k < j ==> a@[k] != '.');
            if j < dot {
                assert(a@[j] != '.');
            }
            if j > dot {
                assert(a@[dot as int] != '.');
            }
            assert(first_dot(attr@) == Some(dot as int));
        }
        let head = string_of(chars_between(a.as_slice(), 0, dot).as_slice());
        let tail = string_of(chars_between(a.as_slice(), dot + 1, a.len()).as_slice());
        assert(head@ == attr@.take(dot as int));
        assert(tail@ == attr@.skip(dot + 1));
        (to_pascal(head.as_str()), to_pascal(tail.as_str()))
    } else {
        assert(first_dot(attr@) is None);
        (to_pascal(iface), to_pascal(attr))
    };
    let x = chars_of(first.as_str());
    let y = chars_of(second.as_str());
    string_of(joined_chars(x.as_slice(), y.as_slice()).as_slice())
}

} // verus!

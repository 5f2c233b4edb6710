use vstd::prelude::*;
use vstd::utf8::{encode_scalar, encode_utf8};

verus! {

/// The characters with the Unicode `White_Space` property.
pub open spec fn is_white_space(c: char) -> bool {
    let u = c as u32;
    ||| 0x09 <= u <= 0x0d
    ||| u == 0x20
    ||| u == 0x85
    ||| u == 0xa0
    ||| u == 0x1680
    ||| 0x2000 <= u <= 0x200a
    ||| u == 0x2028
    ||| u == 0x2029
    ||| u == 0x202f
    ||| u == 0x205f
    ||| u == 0x3000
}

/// `s` without its leading white space.
pub open spec fn trim_start_seq(s: Seq<char>) -> Seq<char>
    decreases s.len(),
{
    if s.len() > 0 && is_white_space(s[0]) {
        trim_start_seq(s.drop_first())
    } else {
        s
    }
}

/// `s` without its trailing white space.
pub open spec fn trim_end_seq(s: Seq<char>) -> Seq<char>
    decreases s.len(),
{
    if s.len() > 0 && is_white_space(s.last()) {
        trim_end_seq(s.drop_last())
    } else {
        s
    }
}

/// `s` without leading and trailing white space.
pub open spec fn trimmed(s: Seq<char>) -> Seq<char> {
    trim_end_seq(trim_start_seq(s))
}

/// Whether `c` is a Unicode white-space character.
pub fn is_whitespace(c: char) -> (r: bool)
    ensures
        r == is_white_space(c),
{
    let u = c as u32;
    (0x09 <= u && u <= 0x0d) || u == 0x20 || u == 0x85 || u == 0xa0 || u == 0x1680 || (0x2000
        <= u && u <= 0x200a) || u == 0x2028 || u == 0x2029 || u == 0x202f || u == 0x205f || u
        == 0x3000
}

/// The characters of `s`, in order.
pub fn chars_of(s: &str) -> (v: Vec<char>)
    ensures
        v@ == s@,
{
    let mut v: Vec<char> = Vec::new();
    for c in it: s.chars()
        invariant
            v@ == it.seq().take(it.index() as int),
            it.seq() == s@,
    {
        v.push(c);
    }
    v
}

proof fn lemma_trim_start_step(s: Seq<char>, i: int)
    requires
        0 <= i < s.len(),
        is_white_space(s[i]),
    ensures
        trim_start_seq(s.subrange(i, s.len() as int)) == trim_start_seq(
            s.subrange(i + 1, s.len() as int),
        ),
{
    assert(s.subrange(i, s.len() as int).drop_first() =~= s.subrange(i + 1, s.len() as int));
}

proof fn lemma_trim_end_step(s: Seq<char>, j: int)
    requires
        0 < j <= s.len(),
        is_white_space(s[j - 1]),
    ensures
        trim_end_seq(s.subrange(0, j)) == trim_end_seq(s.subrange(0, j - 1)),
{
    assert(s.subrange(0, j).drop_last() =~= s.subrange(0, j - 1));
}

/// `s` without leading and trailing white space, as `str::trim` gives it.
pub fn trim(s: &str) -> (r: String)
    ensures
        r@ == trimmed(s@),
{
    let v = chars_of(s);
    let n = v.len();
    let mut i: usize = 0;
    assert(s@.subrange(0, n as int) =~= s@);
    while i < n && is_whitespace(v[i])
        invariant
            v@ == s@,
            n == s@.len(),
            i <= n,
            trim_start_seq(s@) == trim_start_seq(s@.subrange(i as int, n as int)),
        decreases n - i,
    {
        proof {
            lemma_trim_start_step(s@, i as int);
        }
        i = i + 1;
    }
    let ghost rest = s@.subrange(i as int, n as int);
    assert(trim_start_seq(s@) == rest);
    let mut j: usize = n;
    assert(rest.subrange(0, (j - i) as int) =~= rest);
    while j > i && is_whitespace(v[j - 1])
        invariant
            v@ == s@,
            n == s@.len(),
            i <= j <= n,
            rest == s@.subrange(i as int, n as int),
            trim_end_seq(rest) == trim_end_seq(rest.subrange(0, (j - i) as int)),
        decreases j - i,
    {
        proof {
            lemma_trim_end_step(rest, (j - i) as int);
        }
        j = j - 1;
    }
    let ghost kept = rest.subrange(0, (j - i) as int);
    assert(kept =~= s@.subrange(i as int, j as int));
    assert(trim_end_seq(kept) == kept);
    let sub = s.substring_char(i, j);
    sub.to_string()
}


/// `a` followed by `b`.
pub fn concatenate(a: &str, b: &str) -> (r: String)
    ensures
        r@ == a@ + b@,
{
    let mut r = a.to_string();
    r.append(b);
    r
}

/// The code of `c` with ASCII upper-case letters mapped to lower case.
pub open spec fn ascii_lower_code(c: char) -> u32 {
    let u = c as u32;
    if 65 <= u <= 90 {
        (u + 32) as u32
    } else {
        u
    }
}

/// Equality of two texts when ASCII letters are compared without regard to case.
pub open spec fn eq_ignore_ascii_case_seq(a: Seq<char>, b: Seq<char>) -> bool {
    &&& a.len() == b.len()
    &&& forall|i: int| 0 <= i < a.len() ==> #[trigger] ascii_lower_code(a[i]) == ascii_lower_code(b[i])
}

fn ascii_lower(c: char) -> (r: u32)
    ensures
        r == ascii_lower_code(c),
{
    let u = c as u32;
    if 65 <= u && u <= 90 {
        u + 32
    } else {
        u
    }
}

/// Whether `a` and `b` are equal up to the case of ASCII letters, as
/// `str::eq_ignore_ascii_case` decides it.
pub fn eq_ignore_ascii_case(a: &str, b: &str) -> (r: bool)
    ensures
        r == eq_ignore_ascii_case_seq(a@, b@),
{
    let va = chars_of(a);
    let vb = chars_of(b);
    if va.len() != vb.len() {
        return false;
    }
    let mut i: usize = 0;
    while i < va.len()
        invariant
            va@ == a@,
            vb@ == b@,
            va.len() == vb.len(),
            i <= va.len(),
            forall|k: int| 0 <= k < i ==> #[trigger] ascii_lower_code(a@[k]) == ascii_lower_code(b@[k]),
        decreases va.len() - i,
    {
        if ascii_lower(va[i]) != ascii_lower(vb[i]) {
            return false;
        }
        i = i + 1;
    }
    true
}

/// The rest of `s` after `prefix`, when `s` starts with `prefix`.
pub fn strip_prefix(s: &str, prefix: &str) -> (r: Option<String>)
    ensures
        r is Some <==> prefix@.is_prefix_of(s@),
        r matches Some(rest) ==> rest@ == s@.skip(prefix@.len() as int),
{
    let vs = chars_of(s);
    let vp = chars_of(prefix);
    if vp.len() > vs.len() {
        return None;
    }
    let mut i: usize = 0;
    while i < vp.len()
        invariant
            vs@ == s@,
            vp@ == prefix@,
            vp.len() <= vs.len(),
            i <= vp.len(),
            forall|k: int| 0 <= k < i ==> prefix@[k] == s@[k],
        decreases vp.len() - i,
    {
        if vp[i] != vs[i] {
            return None;
        }
        i = i + 1;
    }
    let rest = s.substring_char(vp.len(), vs.len());
    assert(rest@ =~= s@.skip(prefix@.len() as int));
    Some(rest.to_string())
}


/// The texts of `parts` with `sep` between each two neighbours.
pub open spec fn seq_join(parts: Seq<Seq<char>>, sep: Seq<char>) -> Seq<char>
    decreases parts.len(),
{
    if parts.len() == 0 {
        Seq::empty()
    } else if parts.len() == 1 {
        parts[0]
    } else {
        seq_join(parts.drop_last(), sep) + sep + parts.last()
    }
}

/// The texts of a run of strings.
pub open spec fn texts(v: Seq<String>) -> Seq<Seq<char>> {
    v.map_values(|s: String| s@)
}

/// The strings `parts[start..end]` joined with `sep`, as `<[String]>::join` gives it.
pub fn join_range(parts: &Vec<String>, start: usize, end: usize, sep: &str) -> (r: String)
    requires
        start <= end <= parts.len(),
    ensures
        r@ == seq_join(texts(parts@.subrange(start as int, end as int)), sep@),
{
    let mut r = String::new();
    let mut i: usize = start;
    assert(texts(parts@.subrange(start as int, start as int)) =~= Seq::<Seq<char>>::empty());
    while i < end
        invariant
            start <= i <= end <= parts.len(),
            r@ == seq_join(texts(parts@.subrange(start as int, i as int)), sep@),
        decreases end - i,
    {
        let ghost before = texts(parts@.subrange(start as int, i as int));
        let ghost after = texts(parts@.subrange(start as int, i + 1));
        assert(after.drop_last() =~= before);
        assert(after.last() == parts@[i as int]@);
        if i > start {
            r.append(sep);
        }
        r.append(parts[i].as_str());
        i = i + 1;
    }
    r
}

/// The strings of `parts` joined with `sep`.
pub fn join(parts: &Vec<String>, sep: &str) -> (r: String)
    ensures
        r@ == seq_join(texts(parts@), sep@),
{
    let r = join_range(parts, 0, parts.len(), sep);
    assert(parts@.subrange(0, parts.len() as int) =~= parts@);
    r
}

/// `a` and `b` agree on their first `k` characters.
pub open spec fn agree_upto(a: Seq<char>, b: Seq<char>, k: int) -> bool {
    forall|i: int| 0 <= i < k ==> a[i] == b[i]
}

/// `a` comes before `b` because they first differ at position `k`.
pub open spec fn less_at(a: Seq<char>, b: Seq<char>, k: int) -> bool {
    &&& 0 <= k <= a.len()
    &&& k <= b.len()
    &&& agree_upto(a, b, k)
    &&& (k == a.len() && k < b.len()) || (k < a.len() && k < b.len() && a[k] < b[k])
}

/// Lexicographic order of texts by code point, the order of `str` in Rust.
pub open spec fn seq_less(a: Seq<char>, b: Seq<char>) -> bool {
    exists|k: int| less_at(a, b, k)
}

/// No text comes before itself.
pub proof fn lemma_seq_less_irreflexive(a: Seq<char>)
    ensures
        !seq_less(a, a),
{
}

/// The order of texts is transitive.
pub proof fn lemma_seq_less_transitive(a: Seq<char>, b: Seq<char>, c: Seq<char>)
    requires
        seq_less(a, b),
        seq_less(b, c),
    ensures
        seq_less(a, c),
{
    let k1 = choose|k: int| less_at(a, b, k);
    let k2 = choose|k: int| less_at(b, c, k);
    if k1 < k2 {
        assert(less_at(a, c, k1));
    } else if k2 < k1 {
        assert(less_at(a, c, k2));
    } else {
        assert(less_at(a, c, k1));
    }
}

/// The three outcomes of comparing two texts.
pub enum TextOrder {
    Less,
    Equal,
    Greater,
}

/// Compares `a` with `b` in the order `seq_less`.
pub fn compare_text(a: &str, b: &str) -> (r: TextOrder)
    ensures
        r is Less <==> seq_less(a@, b@),
        r is Equal <==> a@ == b@,
        r is Greater <==> seq_less(b@, a@),
{
    let va = chars_of(a);
    let vb = chars_of(b);
    let mut i: usize = 0;
    while i < va.len() && i < vb.len() && va[i] == vb[i]
        invariant
            va@ == a@,
            vb@ == b@,
            i <= va.len(),
            i <= vb.len(),
            agree_upto(a@, b@, i as int),
        decreases va.len() - i,
    {
        i = i + 1;
    }
    let ghost k = i as int;
    if i < va.len() && i < vb.len() {
        assert(agree_upto(b@, a@, k));
        assert(a@ != b@) by {
            assert(a@[k] != b@[k]);
        }
        if va[i] < vb[i] {
            assert(less_at(a@, b@, k));
            assert(!seq_less(b@, a@)) by {
                if seq_less(b@, a@) {
                    lemma_seq_less_transitive(a@, b@, a@);
                }
            }
            TextOrder::Less
        } else {
            assert(b@[k] < a@[k]) by {
                assert(va[i as int] != vb[i as int]);
            }
            assert(less_at(b@, a@, k));
            assert(!seq_less(a@, b@)) by {
                if seq_less(a@, b@) {
                    lemma_seq_less_transitive(a@, b@, a@);
                }
            }
            TextOrder::Greater
        }
    } else if va.len() == vb.len() {
        assert(a@ =~= b@);
        TextOrder::Equal
    } else if i == va.len() {
        assert(less_at(a@, b@, k));
        assert(a@.len() != b@.len());
        assert(!seq_less(b@, a@)) by {
            if seq_less(b@, a@) {
                lemma_seq_less_transitive(a@, b@, a@);
            }
        }
        TextOrder::Less
    } else {
        assert(agree_upto(b@, a@, k));
        assert(less_at(b@, a@, k));
        assert(a@.len() != b@.len());
        assert(!seq_less(a@, b@)) by {
            if seq_less(a@, b@) {
                lemma_seq_less_transitive(a@, b@, a@);
            }
        }
        TextOrder::Greater
    }
}


/// Whether `a` and `b` are the same text.
pub fn same_text(a: &str, b: &str) -> (r: bool)
    ensures
        r == (a@ == b@),
{
    match compare_text(a, b) {
        TextOrder::Equal => true,
        _ => false,
    }
}


/// Whether `a` comes before `b` in the order `seq_less`.
pub fn text_less(a: &str, b: &str) -> (r: bool)
    ensures
        r == seq_less(a@, b@),
{
    match compare_text(a, b) {
        TextOrder::Less => true,
        _ => false,
    }
}

/// Every text comes strictly before the texts after it.
pub open spec fn strictly_ascending(t: Seq<Seq<char>>) -> bool {
    forall|i: int, j: int| 0 <= i < j < t.len() ==> seq_less(#[trigger] t[i], #[trigger] t[j])
}

/// Adds `s` to the strictly ascending run `v`, unless a string with the same
/// text is already there.
pub fn insert_sorted(v: &mut Vec<String>, s: String)
    requires
        strictly_ascending(texts(old(v)@)),
    ensures
        strictly_ascending(texts(final(v)@)),
        texts(final(v)@).to_set() == texts(old(v)@).to_set().insert(s@),
{
    let ghost old_t = texts(v@);
    let mut p: usize = 0;
    while p < v.len() && text_less(v[p].as_str(), s.as_str())
        invariant
            texts(v@) == old_t,
            strictly_ascending(old_t),
            p <= v.len(),
            forall|i: int| 0 <= i < p ==> seq_less(#[trigger] old_t[i], s@),
        decreases v.len() - p,
    {
        p = p + 1;
    }
    if p < v.len() {
        match compare_text(v[p].as_str(), s.as_str()) {
            TextOrder::Equal => {
                assert(old_t.to_set().insert(s@) =~= old_t.to_set()) by {
                    assert(old_t[p as int] == s@);
                }
                return;
            },
            _ => {
                assert(seq_less(s@, old_t[p as int]));
            },
        }
    }
    let ghost s_text = s@;
    v.insert(p, s);
    let ghost new_t = texts(v@);
    assert(new_t =~= old_t.insert(p as int, s_text));
    assert forall|i: int, j: int| 0 <= i < j < new_t.len() implies seq_less(
        #[trigger] new_t[i],
        #[trigger] new_t[j],
    ) by {
        if j < p {
            assert(new_t[i] == old_t[i] && new_t[j] == old_t[j]);
        } else if j == p {
            assert(new_t[i] == old_t[i]);
        } else if i == p {
            assert(new_t[j] == old_t[j - 1]);
            if j - 1 > p {
                assert(seq_less(old_t[p as int], old_t[j - 1]));
                lemma_seq_less_transitive(s_text, old_t[p as int], old_t[j - 1]);
            }
        } else if i < p {
            assert(new_t[i] == old_t[i] && new_t[j] == old_t[j - 1]);
        } else {
            assert(new_t[i] == old_t[i - 1] && new_t[j] == old_t[j - 1]);
        }
    }
    assert(new_t.to_set() =~= old_t.to_set().insert(s_text)) by {
        assert forall|x: Seq<char>| new_t.to_set().contains(x) implies old_t.to_set().insert(
            s_text,
        ).contains(x) by {
            let i = choose|i: int| 0 <= i < new_t.len() && new_t[i] == x;
            if i < p {
                assert(old_t[i] == x);
            } else if i > p {
                assert(old_t[i - 1] == x);
            }
        }
        assert forall|x: Seq<char>| old_t.to_set().insert(s_text).contains(x) implies new_t.to_set().contains(x) by {
            if x == s_text {
                assert(new_t[p as int] == x);
            } else {
                let i = choose|i: int| 0 <= i < old_t.len() && old_t[i] == x;
                if i < p {
                    assert(new_t[i] == x);
                } else {
                    assert(new_t[i + 1] == x);
                }
            }
        }
    }
}


/// Each character takes between one and four bytes in UTF-8.
pub proof fn lemma_utf8_len_bounds(s: Seq<char>)
    ensures
        s.len() <= encode_utf8(s).len() <= 4 * s.len(),
    decreases s.len(),
{
    if s.len() > 0 {
        lemma_utf8_len_bounds(s.drop_first());
        let n = encode_scalar(s[0] as u32).len();
        assert(1 <= n <= 4);
    }
}


/// Trimming leaves nothing to trim at the start.
pub proof fn lemma_trim_start_done(s: Seq<char>)
    ensures
        trim_start_seq(s).len() > 0 ==> !is_white_space(trim_start_seq(s)[0]),
        trim_start_seq(trim_start_seq(s)) == trim_start_seq(s),
    decreases s.len(),
{
    if s.len() > 0 && is_white_space(s[0]) {
        lemma_trim_start_done(s.drop_first());
    }
}

/// Trimming the end keeps the start: if `s` does not start with white
/// space, neither does `trim_end_seq(s)`.
pub proof fn lemma_trim_end_keeps_start(s: Seq<char>)
    requires
        s.len() > 0 ==> !is_white_space(s[0]),
    ensures
        trim_end_seq(s).len() > 0 ==> !is_white_space(trim_end_seq(s)[0]),
        trim_end_seq(trim_end_seq(s)) == trim_end_seq(s),
        trim_end_seq(s).len() > 0 ==> trim_end_seq(s)[0] == s[0],
    decreases s.len(),
{
    if s.len() > 0 && is_white_space(s.last()) {
        let t = s.drop_last();
        if t.len() > 0 {
            assert(t[0] == s[0]);
        }
        lemma_trim_end_keeps_start(t);
    }
}

/// Trimming twice is trimming once.
pub proof fn lemma_trimmed_idempotent(s: Seq<char>)
    ensures
        trimmed(trimmed(s)) == trimmed(s),
{
    let a = trim_start_seq(s);
    lemma_trim_start_done(s);
    lemma_trim_end_keeps_start(a);
    let t = trim_end_seq(a);
    // t does not start with white space, so trimming its start changes nothing.
    assert(trim_start_seq(t) == t);
}

/// Two texts are equal up to the case of ASCII letters exactly when they
/// have the same length and at each position hold the same character or the
/// upper- and lower-case forms of one ASCII letter.
pub proof fn lemma_ignore_ascii_case_meaning(a: Seq<char>, b: Seq<char>)
    ensures
        eq_ignore_ascii_case_seq(a, b) <==> (a.len() == b.len() && forall|i: int|
            0 <= i < a.len() ==> #[trigger] same_up_to_ascii_case(a[i], b[i])),
{
    assert forall|i: int| 0 <= i < a.len() && i < b.len() implies (ascii_lower_code(a[i])
        == ascii_lower_code(b[i]) <==> #[trigger] same_up_to_ascii_case(a[i], b[i])) by {
        lemma_char_case(a[i], b[i]);
    }
    if a.len() == b.len() {
        if eq_ignore_ascii_case_seq(a, b) {
            assert forall|i: int| 0 <= i < a.len() implies #[trigger] same_up_to_ascii_case(
                a[i],
                b[i],
            ) by {
                assert(ascii_lower_code(a[i]) == ascii_lower_code(b[i]));
            }
        }
        if forall|i: int| 0 <= i < a.len() ==> #[trigger] same_up_to_ascii_case(a[i], b[i]) {
            assert forall|i: int| 0 <= i < a.len() implies #[trigger] ascii_lower_code(a[i])
                == ascii_lower_code(b[i]) by {
                assert(same_up_to_ascii_case(a[i], b[i]));
            }
        }
    }
}

/// `c` and `d` are the same character, or the two cases of one ASCII letter.
pub open spec fn same_up_to_ascii_case(c: char, d: char) -> bool {
    ||| c == d
    ||| 'A' <= c <= 'Z' && (d as u32) == (c as u32) + 32
    ||| 'A' <= d <= 'Z' && (c as u32) == (d as u32) + 32
}

proof fn lemma_char_case(c: char, d: char)
    ensures
        ascii_lower_code(c) == ascii_lower_code(d) <==> same_up_to_ascii_case(c, d),
{
    broadcast use vstd::utf8::char_u32_cast;
    assert((c as u32 == d as u32) <==> c == d) by {
        vstd::utf8::char_is_scalar(c);
        vstd::utf8::char_is_scalar(d);
    }
}

proof fn lemma_first_difference(a: Seq<char>, b: Seq<char>, n: int) -> (k: int)
    requires
        0 <= n <= a.len(),
        n <= b.len(),
        !agree_upto(a, b, n),
    ensures
        0 <= k < n,
        agree_upto(a, b, k),
        a[k] != b[k],
    decreases n,
{
    if agree_upto(a, b, n - 1) {
        n - 1
    } else {
        lemma_first_difference(a, b, n - 1)
    }
}

/// Any two different texts are ordered one way or the other, and a proper
/// prefix comes first.
pub proof fn lemma_seq_less_total(a: Seq<char>, b: Seq<char>)
    ensures
        a != b ==> seq_less(a, b) || seq_less(b, a),
        a.len() < b.len() && a.is_prefix_of(b) ==> seq_less(a, b),
{
    if a.len() < b.len() && a.is_prefix_of(b) {
        assert(less_at(a, b, a.len() as int));
    }
    if a != b {
        let n = if a.len() < b.len() { a.len() as int } else { b.len() as int };
        if agree_upto(a, b, n) {
            if a.len() < b.len() {
                assert(less_at(a, b, n));
            } else if b.len() < a.len() {
                assert(agree_upto(b, a, n));
                assert(less_at(b, a, n));
            } else {
                assert(a =~= b);
            }
        } else {
            let k = lemma_first_difference(a, b, n);
            assert(agree_upto(b, a, k));
            if a[k] < b[k] {
                assert(less_at(a, b, k));
            } else {
                assert(less_at(b, a, k));
            }
        }
    }
}

} // verus!

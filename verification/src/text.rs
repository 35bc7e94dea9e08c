use vstd::prelude::*;

verus! {

/// Appends a character to a string: `String::push`.
#[verifier::external_body]
pub(crate) fn push_char(s: &mut String, c: char)
    ensures
        final(s)@ == old(s)@.push(c),
{
    s.push(c);
}

/// The characters of `s`, in order.
pub fn chars_of(s: &str) -> (v: Vec<char>)
    ensures
        v@ == s@,
{
    broadcast use vstd::string::group_string_axioms;
    let mut v: Vec<char> = Vec::new();
    for c in it: s.chars()
        invariant
            v@ == it.seq().take(it.index() as int),
            it.seq() == s@,
    {
        v.push(c);
    }
    v
}


/// A string holding the characters of `v`, in order.
pub fn string_of(v: &[char]) -> (s: String)
    ensures
        s@ == v@,
{
    let mut s = String::new();
    let n = v.len();
    for i in 0..n
        invariant
            n == v@.len(),
            s@ == v@.take(i as int),
    {
        push_char(&mut s, v[i]);
        assert(v@.take(i + 1) == v@.take(i as int).push(v@[i as int]));
    }
    assert(v@.take(n as int) == v@);
    s
}

/// Whether two strings hold the same characters.
pub fn str_eq(a: &str, b: &str) -> (r: bool)
    ensures
        r == (a@ == b@),
{
    let va = chars_of(a);
    let vb = chars_of(b);
    if va.len() != vb.len() {
        return false;
    }
    let n = va.len();
    for i in 0..n
        invariant
            n == va@.len(),
            n == vb@.len(),
            va@ == a@,
            vb@ == b@,
            forall|j: int| 0 <= j < i ==> va@[j] == vb@[j],
    {
        if va[i] != vb[i] {
            return false;
        }
    }
    assert(va@ =~= vb@);
    true
}

/// Characters with the Unicode `White_Space` property, the set that
/// `char::is_whitespace`, `str::trim` and `str::split_whitespace` use.
pub open spec fn is_space(c: char) -> bool {
    let u = c as u32;
    ||| 0x09 <= u <= 0x0D
    ||| u == 0x20
    ||| u == 0x85
    ||| u == 0xA0
    ||| u == 0x1680
    ||| 0x2000 <= u <= 0x200A
    ||| u == 0x2028
    ||| u == 0x2029
    ||| u == 0x202F
    ||| u == 0x205F
    ||| u == 0x3000
}

/// Tells whether `c` is white space in the sense of `char::is_whitespace`.
pub fn is_white_space(c: char) -> (r: bool)
    ensures
        r == is_space(c),
{
    let u = c as u32;
    (0x09 <= u && u <= 0x0D) || u == 0x20 || u == 0x85 || u == 0xA0 || u == 0x1680 || (0x2000
        <= u && u <= 0x200A) || u == 0x2028 || u == 0x2029 || u == 0x202F || u == 0x205F || u
        == 0x3000
}

/// `s` without its leading white space.
pub open spec fn trim_front(s: Seq<char>) -> Seq<char>
    decreases s.len(),
{
    if s.len() > 0 && is_space(s[0]) {
        trim_front(s.drop_first())
    } else {
        s
    }
}

/// `s` without its trailing white space.
pub open spec fn trim_back(s: Seq<char>) -> Seq<char>
    decreases s.len(),
{
    if s.len() > 0 && is_space(s.last()) {
        trim_back(s.drop_last())
    } else {
        s
    }
}

/// `s` without leading and trailing white space, as `str::trim` gives it.
pub open spec fn trimmed(s: Seq<char>) -> Seq<char> {
    trim_back(trim_front(s))
}

proof fn lemma_trim_front_at(s: Seq<char>, i: int)
    requires
        0 <= i <= s.len(),
        forall|j: int| 0 <= j < i ==> is_space(#[trigger] s[j]),
        i == s.len() || !is_space(s[i]),
    ensures
        trim_front(s) == s.subrange(i, s.len() as int),
    decreases i,
{
    if i > 0 {
        assert(s.drop_first().subrange(i - 1, s.len() - 1) =~= s.subrange(i, s.len() as int));
        lemma_trim_front_at(s.drop_first(), i - 1);
    } else {
        assert(s.subrange(0, s.len() as int) =~= s);
    }
}

proof fn lemma_trim_back_at(s: Seq<char>, k: int)
    requires
        0 <= k <= s.len(),
        forall|j: int| k <= j < s.len() ==> is_space(#[trigger] s[j]),
        k == 0 || !is_space(s[k - 1]),
    ensures
        trim_back(s) == s.subrange(0, k),
    decreases s.len() - k,
{
    if k < s.len() {
        assert(s.drop_last().subrange(0, k) =~= s.subrange(0, k));
        lemma_trim_back_at(s.drop_last(), k);
    } else {
        assert(s.subrange(0, k) =~= s);
    }
}

/// The characters of `s` without leading and trailing white space.
pub fn trim_chars(s: &str) -> (v: Vec<char>)
    ensures
        v@ == trimmed(s@),
{
    let c = chars_of(s);
    let n = c.len();
    let mut i: usize = 0;
    while i < n && is_white_space(c[i])
        invariant
            n == c@.len(),
            i <= n,
            forall|j: int| 0 <= j < i ==> is_space(#[trigger] c@[j]),
        decreases n - i,
    {
        i = i + 1;
    }
    proof {
        lemma_trim_front_at(c@, i as int);
    }
    let mut k: usize = n;
    while k > i && is_white_space(c[k - 1])
        invariant
            n == c@.len(),
            i <= k <= n,
            forall|j: int| k <= j < n ==> is_space(#[trigger] c@[j]),
        decreases k,
    {
        k = k - 1;
    }
    let ghost front = c@.subrange(i as int, n as int);
    proof {
        assert forall|j: int| k - i <= j < front.len() implies is_space(#[trigger] front[j]) by {
            assert(front[j] == c@[i + j]);
        }
        if k > i {
            assert(front[k - i - 1] == c@[k - 1]);
        }
        lemma_trim_back_at(front, k - i);
        assert(front.subrange(0, k - i) =~= c@.subrange(i as int, k as int));
    }
    let mut v: Vec<char> = Vec::new();
    let mut p: usize = i;
    while p < k
        invariant
            n == c@.len(),
            i <= p <= k <= n,
            v@ == c@.subrange(i as int, p as int),
        decreases k - p,
    {
        v.push(c[p]);
        assert(c@.subrange(i as int, p + 1) =~= c@.subrange(i as int, p as int).push(c@[p as int]));
        p = p + 1;
    }
    v
}


/// Longest player name kept, in characters.
pub const NAME_MAX_CHARS: usize = 18;

/// The name a raw input gives: the input without surrounding white space, cut to its
/// first `NAME_MAX_CHARS` characters; none when nothing but white space is left.
pub open spec fn spec_display_name(raw: Seq<char>) -> Option<Seq<char>> {
    let t = trimmed(raw);
    if t.len() == 0 {
        None
    } else if t.len() <= NAME_MAX_CHARS {
        Some(t)
    } else {
        Some(t.take(NAME_MAX_CHARS as int))
    }
}

/// Turns what a player typed into a display name, or `None` when it is blank.
pub fn display_name(raw: &str) -> (r: Option<String>)
    ensures
        r matches Some(s) ==> spec_display_name(raw@) == Some(s@),
        r is None <==> spec_display_name(raw@) is None,
{
    let t = trim_chars(raw);
    if t.len() == 0 {
        return None;
    }
    if t.len() <= NAME_MAX_CHARS {
        Some(string_of(t.as_slice()))
    } else {
        let mut cut: Vec<char> = Vec::new();
        for i in 0..NAME_MAX_CHARS
            invariant
                t@.len() > NAME_MAX_CHARS,
                cut@ == t@.take(i as int),
        {
            cut.push(t[i]);
            assert(t@.take(i + 1) =~= t@.take(i as int).push(t@[i as int]));
        }
        Some(string_of(cut.as_slice()))
    }
}

/// What one character becomes in HTML text.
pub open spec fn escape_char(c: char) -> Seq<char> {
    if c == '&' {
        seq!['&', 'a', 'm', 'p', ';']
    } else if c == '<' {
        seq!['&', 'l', 't', ';']
    } else if c == '>' {
        seq!['&', 'g', 't', ';']
    } else if c == '"' {
        seq!['&', 'q', 'u', 'o', 't', ';']
    } else {
        seq![c]
    }
}

/// `s` with `&`, `<`, `>` and `"` replaced by their HTML entities.
pub open spec fn spec_escape_html(s: Seq<char>) -> Seq<char>
    decreases s.len(),
{
    if s.len() == 0 {
        Seq::empty()
    } else {
        spec_escape_html(s.drop_last()) + escape_char(s.last())
    }
}

fn push_all(out: &mut String, cs: &[char])
    ensures
        final(out)@ == old(out)@ + cs@,
{
    let n = cs.len();
    for i in 0..n
        invariant
            n == cs@.len(),
            out@ == old(out)@ + cs@.take(i as int),
    {
        push_char(out, cs[i]);
        assert(cs@.take(i + 1) =~= cs@.take(i as int).push(cs@[i as int]));
    }
    assert(cs@.take(n as int) =~= cs@);
}

fn push_escaped(out: &mut String, c: char)
    ensures
        final(out)@ == old(out)@ + escape_char(c),
{
    if c == '&' {
        push_all(out, &['&', 'a', 'm', 'p', ';']);
    } else if c == '<' {
        push_all(out, &['&', 'l', 't', ';']);
    } else if c == '>' {
        push_all(out, &['&', 'g', 't', ';']);
    } else if c == '"' {
        push_all(out, &['&', 'q', 'u', 'o', 't', ';']);
    } else {
        push_char(out, c);
    }
    assert(final(out)@ =~= old(out)@ + escape_char(c));
}

/// Escapes text for use inside HTML: `&`, `<`, `>` and `"` become entities.
pub fn escape_html(text: &str) -> (r: String)
    ensures
        r@ == spec_escape_html(text@),
{
    let cs = chars_of(text);
    let n = cs.len();
    let mut out = String::new();
    for i in 0..n
        invariant
            n == cs@.len(),
            cs@ == text@,
            out@ == spec_escape_html(cs@.take(i as int)),
    {
        assert(cs@.take(i + 1).drop_last() =~= cs@.take(i as int));
        push_escaped(&mut out, cs[i]);
    }
    assert(cs@.take(n as int) =~= cs@);
    out
}

/// The character of a decimal digit.
pub open spec fn digit_char(d: nat) -> char {
    if d == 0 {
        '0'
    } else if d == 1 {
        '1'
    } else if d == 2 {
        '2'
    } else if d == 3 {
        '3'
    } else if d == 4 {
        '4'
    } else if d == 5 {
        '5'
    } else if d == 6 {
        '6'
    } else if d == 7 {
        '7'
    } else if d == 8 {
        '8'
    } else {
        '9'
    }
}

/// The decimal numeral of `n`, without leading zeros.
pub open spec fn decimal(n: nat) -> Seq<char>
    decreases n,
{
    if n < 10 {
        seq![digit_char(n)]
    } else {
        decimal(n / 10).push(digit_char(n % 10))
    }
}

fn digit(d: u32) -> (c: char)
    requires
        d < 10,
    ensures
        c == digit_char(d as nat),
{
    match d {
        0 => '0',
        1 => '1',
        2 => '2',
        3 => '3',
        4 => '4',
        5 => '5',
        6 => '6',
        7 => '7',
        8 => '8',
        _ => '9',
    }
}

/// Appends the decimal numeral of `n`.
pub fn push_decimal(out: &mut String, n: u32)
    ensures
        final(out)@ == old(out)@ + decimal(n as nat),
    decreases n,
{
    if n >= 10 {
        push_decimal(out, n / 10);
    }
    push_char(out, digit(n % 10));
    assert(final(out)@ =~= old(out)@ + decimal(n as nat));
}

/// The decimal numeral of `n`, as `n.to_string()` writes it.
pub fn decimal_string(n: u32) -> (s: String)
    ensures
        s@ == decimal(n as nat),
{
    let mut s = String::new();
    push_decimal(&mut s, n);
    assert(s@ =~= decimal(n as nat));
    s
}


/// A display name is never blank, holds at most `NAME_MAX_CHARS` characters, does not start
/// with white space, and is the start of what was typed once surrounding white space is gone.
pub proof fn lemma_display_name(raw: Seq<char>)
    ensures
        spec_display_name(raw) matches Some(n) ==> {
            &&& 0 < n.len() <= NAME_MAX_CHARS
            &&& !is_space(n[0])
            &&& n == trimmed(raw).take(n.len() as int)
        },
{
    let f = trim_front(raw);
    lemma_trim_front_clean(raw);
    lemma_trim_back_prefix(f);
    let t = trimmed(raw);
    if t.len() > 0 {
        assert(t[0] == f[0]);
        assert(t.take(t.len() as int) =~= t);
    }
}

proof fn lemma_trim_front_clean(s: Seq<char>)
    ensures
        trim_front(s).len() > 0 ==> !is_space(trim_front(s)[0]),
    decreases s.len(),
{
    if s.len() > 0 && is_space(s[0]) {
        lemma_trim_front_clean(s.drop_first());
    }
}

proof fn lemma_trim_back_prefix(s: Seq<char>)
    ensures
        trim_back(s).len() <= s.len(),
        trim_back(s) == s.take(trim_back(s).len() as int),
    decreases s.len(),
{
    if s.len() > 0 && is_space(s.last()) {
        lemma_trim_back_prefix(s.drop_last());
        let r = trim_back(s.drop_last());
        assert(s.drop_last().take(r.len() as int) =~= s.take(r.len() as int));
    } else {
        assert(s.take(s.len() as int) =~= s);
    }
}

/// Escaped text holds no `<`, `>` or `"`: only entities stand for them.
pub proof fn lemma_escape_html_safe(s: Seq<char>)
    ensures
        !spec_escape_html(s).contains('<'),
        !spec_escape_html(s).contains('>'),
        !spec_escape_html(s).contains('"'),
    decreases s.len(),
{
    if s.len() > 0 {
        lemma_escape_html_safe(s.drop_last());
        let a = spec_escape_html(s.drop_last());
        let b = escape_char(s.last());
        let r = spec_escape_html(s);
        assert(r =~= a + b);
        assert forall|c: char| c == '<' || c == '>' || c == '"' implies !r.contains(c) by {
            if r.contains(c) {
                let k = choose|k: int| 0 <= k < r.len() && r[k] == c;
                if k < a.len() {
                    assert(a[k] == c);
                } else {
                    assert(b[k - a.len()] == c);
                }
            }
        }
    }
}


/// Whether one of the entities `&amp;`, `&lt;`, `&gt;`, `&quot;` starts at `k` in `r`.
pub open spec fn entity_at(r: Seq<char>, k: int) -> bool {
    ||| (k + 5 <= r.len() && r.subrange(k, k + 5) == seq!['&', 'a', 'm', 'p', ';'])
    ||| (k + 4 <= r.len() && r.subrange(k, k + 4) == seq!['&', 'l', 't', ';'])
    ||| (k + 4 <= r.len() && r.subrange(k, k + 4) == seq!['&', 'g', 't', ';'])
    ||| (k + 6 <= r.len() && r.subrange(k, k + 6) == seq!['&', 'q', 'u', 'o', 't', ';'])
}

proof fn lemma_entity_at_extend(a: Seq<char>, b: Seq<char>, k: int)
    requires
        0 <= k < a.len(),
        entity_at(a, k),
    ensures
        entity_at(a + b, k),
{
    let r = a + b;
    if k + 5 <= a.len() {
        assert(r.subrange(k, k + 5) =~= a.subrange(k, k + 5));
    }
    if k + 4 <= a.len() {
        assert(r.subrange(k, k + 4) =~= a.subrange(k, k + 4));
    }
    if k + 6 <= a.len() {
        assert(r.subrange(k, k + 6) =~= a.subrange(k, k + 6));
    }
}

/// In escaped text every `&` starts an entity: `&amp;`, `&lt;`, `&gt;` or `&quot;`.
pub proof fn lemma_escape_html_entities(s: Seq<char>)
    ensures
        forall|k: int|
            0 <= k < spec_escape_html(s).len() && #[trigger] spec_escape_html(s)[k] == '&'
                ==> entity_at(spec_escape_html(s), k),
    decreases s.len(),
{
    if s.len() > 0 {
        lemma_escape_html_entities(s.drop_last());
        let a = spec_escape_html(s.drop_last());
        let b = escape_char(s.last());
        let r = spec_escape_html(s);
        assert(r =~= a + b);
        assert forall|k: int| 0 <= k < r.len() && #[trigger] r[k] == '&' implies entity_at(r, k) by {
            if k < a.len() {
                assert(a[k] == '&');
                lemma_entity_at_extend(a, b, k);
            } else {
                assert(b[k - a.len()] == '&');
                assert(r.subrange(k, r.len() as int) =~= b.subrange(k - a.len(), b.len() as int));
                if k == a.len() {
                    assert(r.subrange(k, k + b.len()) =~= b);
                }
            }
        }
    }
}
} // verus!

//! Character-level text operations, stated over the sequence of characters
//! that a string holds.
use vstd::prelude::*;
use vstd::utf8::*;

verus! {

// ---------------------------------------------------------------------------
// What the operations mean
// ---------------------------------------------------------------------------

/// `p` stands in `s` at position `i`.
pub open spec fn occurs_at<A>(s: Seq<A>, p: Seq<A>, i: int) -> bool {
    &&& 0 <= i
    &&& i + p.len() <= s.len()
    &&& s.subrange(i, i + p.len()) == p
}

/// `p` stands somewhere in `s`.
pub open spec fn contains_text<A>(s: Seq<A>, p: Seq<A>) -> bool {
    exists|i: int| occurs_at(s, p, i)
}

/// The first position from `i` on at which `p` stands in `s`.
pub open spec fn first_from<A>(s: Seq<A>, p: Seq<A>, i: int) -> Option<int>
    decreases s.len() + 1 - i,
{
    if i < 0 || i + p.len() > s.len() {
        None
    } else if occurs_at(s, p, i) {
        Some(i)
    } else {
        first_from(s, p, i + 1)
    }
}

/// `s` with every occurrence of `from`, taken from the left and without overlap,
/// replaced by `to`. An empty `from` stands before each character and at the end.
pub open spec fn replaced(s: Seq<char>, from: Seq<char>, to: Seq<char>) -> Seq<char>
    decreases s.len(),
{
    if from.len() == 0 {
        if s.len() == 0 {
            to
        } else {
            to + seq![s[0]] + replaced(s.skip(1), from, to)
        }
    } else if s.len() < from.len() {
        s
    } else if from.is_prefix_of(s) {
        to + replaced(s.skip(from.len() as int), from, to)
    } else {
        seq![s[0]] + replaced(s.skip(1), from, to)
    }
}

/// The ASCII lowercase of one character.
pub open spec fn ascii_lower(c: char) -> char {
    if 'A' <= c && c <= 'Z' {
        ((c as u32 + 32) as u32) as char
    } else {
        c
    }
}

/// The ASCII lowercase of each character.
pub open spec fn ascii_lowered(s: Seq<char>) -> Seq<char> {
    s.map_values(|c: char| ascii_lower(c))
}

/// Characters with the Unicode property `White_Space`.
pub open spec fn white_space(c: char) -> bool {
    let u = c as u32;
    ||| 0x9 <= u <= 0xd
    ||| u == 0x20
    ||| u == 0x85
    ||| u == 0xa0
    ||| u == 0x1680
    ||| 0x2000 <= u <= 0x200a
    ||| u == 0x2028
    ||| u == 0x2029
    ||| u == 0x202f
    ||| u == 0x205f
    ||| u == 0x3000
}

/// `s` without its leading characters that are in `set`.
pub open spec fn trimmed_start(s: Seq<char>, set: spec_fn(char) -> bool) -> Seq<char>
    decreases s.len(),
{
    if s.len() > 0 && set(s[0]) {
        trimmed_start(s.skip(1), set)
    } else {
        s
    }
}

/// `s` without its trailing characters that are in `set`.
pub open spec fn trimmed_end(s: Seq<char>, set: spec_fn(char) -> bool) -> Seq<char>
    decreases s.len(),
{
    if s.len() > 0 && set(s.last()) {
        trimmed_end(s.drop_last(), set)
    } else {
        s
    }
}

/// `s` without leading and trailing white space.
pub open spec fn trimmed(s: Seq<char>) -> Seq<char> {
    trimmed_end(trimmed_start(s, |c: char| white_space(c)), |c: char| white_space(c))
}

/// The position of the last `c` in `s`.
pub open spec fn last_index(s: Seq<char>, c: char) -> Option<int>
    decreases s.len(),
{
    if s.len() == 0 {
        None
    } else if s.last() == c {
        Some(s.len() - 1)
    } else {
        last_index(s.drop_last(), c)
    }
}

/// The decimal digit for `d`.
pub open spec fn digit(d: nat) -> char {
    (('0' as u32 + d) as u32) as char
}

/// `n` in decimal, without leading zeros.
pub open spec fn decimal(n: nat) -> Seq<char>
    decreases n,
{
    if n < 10 {
        seq![digit(n)]
    } else {
        decimal(n / 10).push(digit(n % 10))
    }
}

pub open spec fn is_ascii_digit(c: char) -> bool {
    '0' <= c && c <= '9'
}

pub open spec fn is_ascii_alnum(c: char) -> bool {
    ||| 'a' <= c && c <= 'z'
    ||| 'A' <= c && c <= 'Z'
    ||| is_ascii_digit(c)
}

/// The digits of `s` read as a decimal number, most significant first.
pub open spec fn number_of(s: Seq<char>) -> nat
    decreases s.len(),
{
    if s.len() == 0 {
        0
    } else {
        number_of(s.drop_last()) * 10 + (s.last() as u32 - '0' as u32) as nat
    }
}

/// A non-empty run of ASCII digits.
pub open spec fn is_digits(s: Seq<char>) -> bool {
    &&& s.len() > 0
    &&& forall|i: int| 0 <= i < s.len() ==> is_ascii_digit(#[trigger] s[i])
}

/// The pieces of `s` between the occurrences of `c`: always at least one.
pub open spec fn split_on<A>(s: Seq<A>, c: A) -> Seq<Seq<A>>
    decreases s.len(),
{
    if s.len() == 0 {
        seq![s]
    } else {
        let before = split_on(s.drop_last(), c);
        if s.last() == c {
            before.push(Seq::empty())
        } else {
            before.update(before.len() - 1, before.last().push(s.last()))
        }
    }
}

/// The views of a list of strings.
pub open spec fn texts(v: Seq<String>) -> Seq<Seq<char>> {
    v.map_values(|s: String| s@)
}

// ---------------------------------------------------------------------------
// Trusted: std functions without a specification in vstd
// ---------------------------------------------------------------------------

/// `String::push` appends the given character to the end.
pub assume_specification[ String::push ](s: &mut String, ch: char)
    ensures
        final(s)@ == old(s)@.push(ch),
;

/// What `str::to_lowercase` returns for a text.
pub uninterp spec fn unicode_lowered(s: Seq<char>) -> Seq<char>;

/// Whether every character of `t` occurs in `lower` or is an ASCII character that
/// is no capital.
pub open spec fn drawn_from(t: Seq<char>, lower: Seq<char>) -> bool {
    forall|i: int|
        0 <= i < t.len() ==> lower.contains(#[trigger] t[i]) || (t[i] as u32 <= 127 && ascii_lower(
            t[i],
        ) == t[i])
}

/// `str::to_lowercase`: a function of the text alone, which goes by Unicode's
/// mapping of each character to lowercase. A text that is ASCII throughout changes in
/// its ASCII capitals only. What comes out is lowercase: it holds no ASCII capital, and
/// a text made of its characters, or of ASCII characters that are no capitals, stays as
/// it is.
#[verifier::external_body]
pub(crate) fn to_lowercase(s: &str) -> (r: String)
    ensures
        r@ == unicode_lowered(s@),
        (forall|i: int| 0 <= i < s@.len() ==> (#[trigger] s@[i]) as u32 <= 127)
            ==> r@ == ascii_lowered(s@),
        forall|i: int| 0 <= i < r@.len() ==> ascii_lower(#[trigger] r@[i]) == r@[i],
        forall|t: Seq<char>| drawn_from(t, r@) ==> #[trigger] unicode_lowered(t) == t,
{
    s.to_lowercase()
}

/// What the `Debug` form of a string is: the text in double quotes, with the
/// characters escaped that `str::escape_debug` escapes.
pub uninterp spec fn debug_text(s: Seq<char>) -> Seq<char>;

/// `format!` with `{:?}` on a string slice: a function of the text alone.
#[verifier::external_body]
pub(crate) fn debug_str(s: &str) -> (r: String)
    ensures
        r@ == debug_text(s@),
{
    format!("{:?}", s)
}

/// `str::from_utf8`: succeeds exactly on valid UTF-8, with the text it encodes.
#[verifier::external_body]
pub(crate) fn from_utf8(bytes: &[u8]) -> (r: Option<String>)
    ensures
        r is Some <==> valid_utf8(bytes@),
        r matches Some(s) ==> s@ == decode_utf8(bytes@),
{
    match std::str::from_utf8(bytes) {
        Ok(s) => Some(s.to_owned()),
        Err(_) => None,
    }
}

/// What `String::from_utf8_lossy` makes of a byte string.
pub uninterp spec fn lossy_text(bytes: Seq<u8>) -> Seq<char>;

/// `String::from_utf8_lossy`: a function of the bytes alone, and on valid UTF-8
/// the text it encodes.
#[verifier::external_body]
pub(crate) fn from_utf8_lossy(bytes: &[u8]) -> (r: String)
    ensures
        r@ == lossy_text(bytes@),
        valid_utf8(bytes@) ==> r@ == decode_utf8(bytes@),
{
    String::from_utf8_lossy(bytes).into_owned()
}

// ---------------------------------------------------------------------------
// Conversions
// ---------------------------------------------------------------------------

/// The characters of a string.
pub fn chars_of(s: &str) -> (v: Vec<char>)
    ensures
        v@ == s@,
{
    let mut v: Vec<char> = Vec::new();
    for c in it: s.chars()
        invariant
            it.seq() == s@,
            v@ == s@.take(it.index() as int),
    {
        v.push(c);
        assert(s@.take(it.index() as int).push(c) =~= s@.take(it.index() + 1));
    }
    assert(s@.take(s@.len() as int) =~= s@);
    v
}

/// The string made of `v[from..to]`.
pub fn string_of(v: &Vec<char>, from: usize, to: usize) -> (s: String)
    requires
        from <= to <= v@.len(),
    ensures
        s@ == v@.subrange(from as int, to as int),
{
    let mut s = String::new();
    let mut i: usize = from;
    while i < to
        invariant
            from <= i <= to <= v@.len(),
            s@ == v@.subrange(from as int, i as int),
        decreases to - i,
    {
        s.push(v[i]);
        assert(v@.subrange(from as int, i as int).push(v@[i as int]) =~= v@.subrange(
            from as int,
            i + 1,
        ));
        i = i + 1;
    }
    s
}

/// `a` followed by `b`.
pub fn cat(a: &str, b: &str) -> (s: String)
    ensures
        s@ == a@ + b@,
{
    let mut s = a.to_owned();
    s.append(b);
    s
}

// ---------------------------------------------------------------------------
// Comparisons and searches
// ---------------------------------------------------------------------------

/// Whether two strings hold the same text.
pub fn str_eq(a: &str, b: &str) -> (r: bool)
    ensures
        r == (a@ == b@),
{
    let x = a.as_bytes();
    let y = b.as_bytes();
    proof {
        encode_utf8_decode_utf8(a@);
        encode_utf8_decode_utf8(b@);
    }
    if x.len() != y.len() {
        return false;
    }
    let mut i: usize = 0;
    while i < x.len()
        invariant
            i <= x@.len(),
            x@.len() == y@.len(),
            x@ == encode_utf8(a@),
            y@ == encode_utf8(b@),
            x@.take(i as int) =~= y@.take(i as int),
        decreases x@.len() - i,
    {
        if x[i] != y[i] {
            return false;
        }
        assert(x@.take(i + 1) =~= x@.take(i as int).push(x@[i as int]));
        assert(y@.take(i + 1) =~= y@.take(i as int).push(y@[i as int]));
        i = i + 1;
    }
    assert(x@.take(i as int) =~= x@);
    assert(y@.take(i as int) =~= y@);
    true
}

/// Whether `p` stands in `v` at position `i`.
pub fn matches_at(v: &Vec<char>, p: &Vec<char>, i: usize) -> (r: bool)
    requires
        i <= v@.len(),
    ensures
        r == occurs_at(v@, p@, i as int),
{
    if v.len() - i < p.len() {
        return false;
    }
    let mut k: usize = 0;
    while k < p.len()
        invariant
            i + p.len() <= v.len(),
            k <= p@.len(),
            forall|j: int| 0 <= j < k ==> v@[i + j] == p@[j],
        decreases p@.len() - k,
    {
        if v[i + k] != p[k] {
            assert(v@.subrange(i as int, i + p@.len())[k as int] != p@[k as int]);
            return false;
        }
        k = k + 1;
    }
    assert(v@.subrange(i as int, i + p@.len()) =~= p@);
    true
}

/// Whether `s` begins with `p`.
pub fn has_prefix(s: &str, p: &str) -> (r: bool)
    ensures
        r == p@.is_prefix_of(s@),
{
    let v = chars_of(s);
    let w = chars_of(p);
    matches_at(&v, &w, 0)
}

/// Whether `p` stands somewhere in `s`.
pub fn has_text(s: &str, p: &str) -> (r: bool)
    ensures
        r == contains_text(s@, p@),
{
    let v = chars_of(s);
    let w = chars_of(p);
    let mut i: usize = 0;
    while i < v.len()
        invariant
            v@ == s@,
            w@ == p@,
            i <= v@.len(),
            forall|j: int| 0 <= j < i ==> !occurs_at(s@, p@, j),
        decreases v@.len() - i,
    {
        if matches_at(&v, &w, i) {
            return true;
        }
        i = i + 1;
    }
    matches_at(&v, &w, i)
}

/// Whether the text holds the character.
pub fn has_char(s: &str, c: char) -> (r: bool)
    ensures
        r == s@.contains(c),
{
    let v = chars_of(s);
    let mut i: usize = 0;
    while i < v.len()
        invariant
            v@ == s@,
            i <= v@.len(),
            forall|j: int| 0 <= j < i ==> v@[j] != c,
        decreases v@.len() - i,
    {
        if v[i] == c {
            assert(s@[i as int] == c);
            return true;
        }
        i = i + 1;
    }
    false
}

/// The position of the last `c` in `v`.
pub fn find_last(v: &Vec<char>, c: char) -> (r: Option<usize>)
    ensures
        match r {
            Some(i) => i < v@.len() && v@[i as int] == c && last_index(v@, c) == Some(i as int),
            None => last_index(v@, c) is None && !v@.contains(c),
        },
{
    let mut k: usize = v.len();
    assert(v@.take(k as int) =~= v@);
    while k > 0
        invariant
            k <= v@.len(),
            last_index(v@.take(k as int), c) == last_index(v@, c),
            forall|j: int| k <= j < v@.len() ==> v@[j] != c,
        decreases k,
    {
        assert(v@.take(k as int).drop_last() =~= v@.take(k - 1));
        if v[k - 1] == c {
            return Some(k - 1);
        }
        k = k - 1;
    }
    None
}

/// Whether the list holds the text.
pub fn list_has(list: &Vec<String>, s: &str) -> (r: bool)
    ensures
        r == texts(list@).contains(s@),
{
    let mut i: usize = 0;
    while i < list.len()
        invariant
            i <= list@.len(),
            forall|j: int| 0 <= j < i ==> (#[trigger] list@[j])@ != s@,
        decreases list@.len() - i,
    {
        if str_eq(list[i].as_str(), s) {
            assert(texts(list@)[i as int] == s@);
            return true;
        }
        i = i + 1;
    }
    assert forall|j: int| 0 <= j < texts(list@).len() implies texts(list@)[j] != s@ by {
        assert(texts(list@)[j] == list@[j]@);
    }
    false
}

/// A copy of a list of texts.
pub fn copy_list(list: &Vec<String>) -> (r: Vec<String>)
    ensures
        texts(r@) == texts(list@),
{
    let mut r: Vec<String> = Vec::new();
    let mut i: usize = 0;
    while i < list.len()
        invariant
            i <= list@.len(),
            r@.len() == i,
            forall|j: int| 0 <= j < i ==> (#[trigger] r@[j])@ == list@[j]@,
        decreases list@.len() - i,
    {
        r.push(list[i].clone());
        i = i + 1;
    }
    assert(texts(r@) =~= texts(list@));
    r
}

/// Appends a text to a list.
pub fn push_text(list: &mut Vec<String>, s: &str)
    ensures
        texts(final(list)@) == texts(old(list)@).push(s@),
{
    let ghost before = texts(list@);
    list.push(s.to_owned());
    assert(texts(list@) =~= before.push(s@));
}

/// Appends a list of texts to a list.
pub fn push_all(list: &mut Vec<String>, more: &Vec<String>)
    ensures
        texts(final(list)@) == texts(old(list)@) + texts(more@),
{
    let ghost before = texts(list@);
    let ghost all = texts(more@);
    let mut i: usize = 0;
    assert(before + all.take(0) =~= before);
    while i < more.len()
        invariant
            all == texts(more@),
            i <= more@.len(),
            texts(list@) == before + all.take(i as int),
        decreases more@.len() - i,
    {
        push_text(list, more[i].as_str());
        assert((before + all.take(i as int)).push(all[i as int]) =~= before + all.take(i + 1));
        i = i + 1;
    }
    assert(all.take(i as int) =~= all);
}

/// The `Debug` forms of the first `k` texts, separated by commas.
pub open spec fn debug_among(list: Seq<Seq<char>>, k: nat) -> Seq<char>
    decreases k,
{
    if k == 0 {
        Seq::empty()
    } else if k == 1 {
        debug_text(list[0])
    } else {
        debug_among(list, (k - 1) as nat) + ", "@ + debug_text(list[k - 1])
    }
}

/// The `Debug` form of a list of texts.
pub open spec fn debug_list(list: Seq<Seq<char>>) -> Seq<char> {
    "["@ + debug_among(list, list.len()) + "]"@
}

/// The `Debug` form of a list of texts.
pub fn debug_texts(list: &Vec<String>) -> (r: String)
    ensures
        r@ == debug_list(texts(list@)),
{
    let ghost all = texts(list@);
    let mut r = "[".to_owned();
    let mut i: usize = 0;
    assert(r@ =~= "["@ + debug_among(all, 0));
    while i < list.len()
        invariant
            all == texts(list@),
            i <= list@.len(),
            r@ == "["@ + debug_among(all, i as nat),
        decreases list@.len() - i,
    {
        let ghost before = r@;
        assert(all[i as int] == list@[i as int]@);
        if i > 0 {
            r.append(", ");
        }
        r.append(debug_str(list[i].as_str()).as_str());
        assert(r@ =~= "["@ + debug_among(all, (i + 1) as nat));
        i = i + 1;
    }
    r.append("]");
    r
}

/// The view of an optional text.
pub open spec fn opt(s: Option<String>) -> Option<Seq<char>> {
    match s {
        Some(t) => Some(t@),
        None => None,
    }
}

/// A copy of an optional text.
pub fn copy_opt(s: &Option<String>) -> (r: Option<String>)
    ensures
        opt(r) == opt(*s),
{
    match s {
        Some(t) => Some(t.clone()),
        None => None,
    }
}

// ---------------------------------------------------------------------------
// Taking apart
// ---------------------------------------------------------------------------

pub proof fn split_on_nonempty<A>(s: Seq<A>, c: A)
    ensures
        split_on(s, c).len() > 0,
    decreases s.len(),
{
    if s.len() > 0 {
        split_on_nonempty(s.drop_last(), c);
    }
}

/// The pieces of a beginning of a text, but for the last, are pieces of the text.
pub proof fn pieces_stay<A>(s: Seq<A>, c: A, k: int, m: int)
    requires
        0 <= k <= s.len(),
        0 <= m < split_on(s.take(k), c).len() - 1,
    ensures
        split_on(s, c).len() >= split_on(s.take(k), c).len(),
        split_on(s, c)[m] == split_on(s.take(k), c)[m],
    decreases s.len() - k,
{
    if k == s.len() {
        assert(s.take(k) =~= s);
    } else {
        assert(s.take(k + 1).drop_last() =~= s.take(k));
        pieces_stay(s, c, k + 1, m);
    }
}

/// A text without `c` is one piece.
pub proof fn split_without<A>(s: Seq<A>, c: A)
    requires
        !s.contains(c),
    ensures
        split_on(s, c) == seq![s],
    decreases s.len(),
{
    if s.len() > 0 {
        assert(!s.drop_last().contains(c)) by {
            if s.drop_last().contains(c) {
                let j = choose|j: int| 0 <= j < s.len() - 1 && s.drop_last()[j] == c;
                assert(s[j] == c);
            }
        }
        split_without(s.drop_last(), c);
        assert(s.last() != c) by {
            if s.last() == c {
                assert(s[s.len() - 1] == c);
            }
        }
        assert(s.drop_last().push(s.last()) =~= s);
        assert(split_on(s, c) =~= seq![s]);
    }
}

/// The first piece of a text that holds `c` first at position `k`.
pub proof fn split_first<A>(s: Seq<A>, c: A, k: int)
    requires
        0 <= k < s.len(),
        s[k] == c,
        !s.take(k).contains(c),
    ensures
        split_on(s, c).len() >= 2,
        split_on(s, c)[0] == s.take(k),
{
    split_without(s.take(k), c);
    assert(s.take(k + 1).drop_last() =~= s.take(k));
    assert(split_on(s.take(k + 1), c) =~= seq![s.take(k), Seq::<A>::empty()]);
    pieces_stay(s, c, k + 1, 0);
}

/// The pieces of `s` between the occurrences of `c`.
pub fn split(s: &str, c: char) -> (r: Vec<String>)
    ensures
        texts(r@) == split_on(s@, c),
        r@.len() > 0,
{
    let v = chars_of(s);
    let mut done: Vec<String> = Vec::new();
    let mut piece = String::new();
    let mut i: usize = 0;
    assert(s@.take(0) =~= piece@);
    assert(texts(done@).push(piece@) =~= split_on(s@.take(0), c));
    while i < v.len()
        invariant
            v@ == s@,
            i <= v@.len(),
            texts(done@).push(piece@) == split_on(s@.take(i as int), c),
        decreases v@.len() - i,
    {
        let ghost so_far = texts(done@).push(piece@);
        assert(s@.take(i + 1).drop_last() =~= s@.take(i as int));
        if v[i] == c {
            done.push(piece);
            piece = String::new();
            assert(texts(done@) =~= so_far);
        } else {
            piece.push(v[i]);
            assert(texts(done@).push(piece@) =~= so_far.update(
                so_far.len() - 1,
                so_far.last().push(v@[i as int]),
            ));
        }
        i = i + 1;
    }
    assert(s@.take(i as int) =~= s@);
    let ghost all = texts(done@).push(piece@);
    done.push(piece);
    assert(texts(done@) =~= all);
    done
}

proof fn number_of_prefix(s: Seq<char>, k: int)
    requires
        0 <= k <= s.len(),
    ensures
        number_of(s.take(k)) <= number_of(s),
    decreases s.len() - k,
{
    if k == s.len() {
        assert(s.take(k) =~= s);
    } else {
        number_of_prefix(s, k + 1);
        assert(s.take(k + 1).drop_last() =~= s.take(k));
    }
}

/// The number that a run of ASCII digits stands for, if it is at most `max`.
pub fn parse_decimal(s: &str, max: u64) -> (r: Option<u64>)
    ensures
        r is Some <==> is_digits(s@) && number_of(s@) <= max,
        r matches Some(n) ==> n == number_of(s@),
{
    let v = chars_of(s);
    if v.len() == 0 {
        return None;
    }
    let mut n: u64 = 0;
    let mut i: usize = 0;
    let mut fits: bool = true;
    while i < v.len()
        invariant
            v@ == s@,
            i <= v@.len(),
            forall|j: int| 0 <= j < i ==> is_ascii_digit(#[trigger] s@[j]),
            fits ==> n == number_of(s@.take(i as int)) && n <= max,
            !fits ==> number_of(s@) > max,
        decreases v@.len() - i,
    {
        let c = v[i];
        if !('0' <= c && c <= '9') {
            assert(!is_ascii_digit(s@[i as int]));
            return None;
        }
        proof {
            number_of_prefix(s@, i + 1);
            assert(s@.take(i + 1).drop_last() =~= s@.take(i as int));
            assert(s@.take(i + 1).last() == c);
        }
        if fits {
            let d: u64 = (c as u64) - 48;
            if n > max / 10 {
                assert(n * 10 > max);
                fits = false;
            } else if d > max - n * 10 {
                fits = false;
            } else {
                n = n * 10 + d;
            }
        }
        i = i + 1;
    }
    assert(s@.take(i as int) =~= s@);
    if fits {
        Some(n)
    } else {
        None
    }
}

// ---------------------------------------------------------------------------
// Rewriting
// ---------------------------------------------------------------------------

proof fn replaced_everywhere(s: Seq<char>, from: Seq<char>, to: Seq<char>, i: int)
    requires
        from.len() == 0,
        0 <= i < s.len(),
    ensures
        replaced(s.skip(i), from, to) == to + seq![s[i]] + replaced(s.skip(i + 1), from, to),
{
    assert(s.skip(i).skip(1) =~= s.skip(i + 1));
}

proof fn replaced_hit(s: Seq<char>, from: Seq<char>, to: Seq<char>, i: int)
    requires
        from.len() > 0,
        occurs_at(s, from, i),
    ensures
        replaced(s.skip(i), from, to) == to + replaced(s.skip(i + from.len()), from, to),
{
    let rest = s.skip(i);
    assert(rest.subrange(0, from.len() as int) =~= s.subrange(i, i + from.len()));
    assert(rest.skip(from.len() as int) =~= s.skip(i + from.len()));
}

proof fn replaced_miss(s: Seq<char>, from: Seq<char>, to: Seq<char>, i: int)
    requires
        from.len() > 0,
        0 <= i < s.len(),
        !occurs_at(s, from, i),
    ensures
        replaced(s.skip(i), from, to) == seq![s[i]] + replaced(s.skip(i + 1), from, to),
{
    let rest = s.skip(i);
    assert(rest.skip(1) =~= s.skip(i + 1));
    if rest.len() < from.len() {
        assert(replaced(rest.skip(1), from, to) == rest.skip(1));
        assert(seq![rest[0]] + rest.skip(1) =~= rest);
    } else {
        assert(rest.subrange(0, from.len() as int) =~= s.subrange(i, i + from.len()));
    }
}

/// `s` with each occurrence of `from` replaced by `to`.
pub fn replace(s: &str, from: &str, to: &str) -> (r: String)
    ensures
        r@ == replaced(s@, from@, to@),
{
    let v = chars_of(s);
    let w = chars_of(from);
    let mut out = String::new();
    let mut i: usize = 0;
    assert(s@.skip(0) =~= s@);
    assert(out@ + replaced(s@.skip(0), from@, to@) =~= replaced(s@, from@, to@));
    while i < v.len()
        invariant
            v@ == s@,
            w@ == from@,
            i <= v@.len(),
            out@ + replaced(s@.skip(i as int), from@, to@) == replaced(s@, from@, to@),
        decreases v@.len() - i,
    {
        let ghost before = out@;
        let ghost rest = replaced(s@.skip(i as int), from@, to@);
        if w.len() == 0 {
            out.append(to);
            out.push(v[i]);
            proof {
                replaced_everywhere(s@, from@, to@, i as int);
                let next = replaced(s@.skip(i + 1), from@, to@);
                assert(out@ + next =~= before + (to@ + seq![s@[i as int]] + next));
            }
            i = i + 1;
        } else if matches_at(&v, &w, i) {
            out.append(to);
            proof {
                replaced_hit(s@, from@, to@, i as int);
                let next = replaced(s@.skip(i + from@.len()), from@, to@);
                assert(out@ + next =~= before + (to@ + next));
            }
            i = i + w.len();
        } else {
            out.push(v[i]);
            proof {
                replaced_miss(s@, from@, to@, i as int);
                let next = replaced(s@.skip(i + 1), from@, to@);
                assert(out@ + next =~= before + (seq![s@[i as int]] + next));
            }
            i = i + 1;
        }
    }
    assert(s@.skip(i as int) =~= Seq::<char>::empty());
    if w.len() == 0 {
        out.append(to);
    }
    assert(out@ =~= replaced(s@, from@, to@));
    out
}

/// The ASCII lowercase of one character.
pub fn char_lower(c: char) -> (r: char)
    ensures
        r == ascii_lower(c),
{
    if 'A' <= c && c <= 'Z' {
        ((c as u8) + 32) as char
    } else {
        c
    }
}

/// The ASCII lowercase of a text.
pub fn ascii_lowercase(s: &str) -> (r: String)
    ensures
        r@ == ascii_lowered(s@),
{
    let v = chars_of(s);
    let mut out = String::new();
    let mut i: usize = 0;
    while i < v.len()
        invariant
            v@ == s@,
            i <= v@.len(),
            out@ == ascii_lowered(s@.take(i as int)),
        decreases v@.len() - i,
    {
        out.push(char_lower(v[i]));
        assert(ascii_lowered(s@.take(i as int)).push(ascii_lower(s@[i as int]))
            =~= ascii_lowered(s@.take(i + 1)));
        i = i + 1;
    }
    assert(s@.take(i as int) =~= s@);
    out
}

/// Whether the character has the Unicode property `White_Space`.
pub fn is_white_space(c: char) -> (r: bool)
    ensures
        r == white_space(c),
{
    let u: u32 = c as u32;
    (0x9 <= u && u <= 0xd) || u == 0x20 || u == 0x85 || u == 0xa0 || u == 0x1680 || (0x2000 <= u
        && u <= 0x200a) || u == 0x2028 || u == 0x2029 || u == 0x202f || u == 0x205f || u == 0x3000
}

/// `s` without leading and trailing white space.
pub fn trim(s: &str) -> (r: String)
    ensures
        r@ == trimmed(s@),
{
    let v = chars_of(s);
    let ghost ws = |c: char| white_space(c);
    let mut i: usize = 0;
    assert(s@.skip(0) =~= s@);
    while i < v.len() && is_white_space(v[i])
        invariant
            v@ == s@,
            i <= v@.len(),
            ws == (|c: char| white_space(c)),
            trimmed_start(s@.skip(i as int), ws) == trimmed_start(s@, ws),
        decreases v@.len() - i,
    {
        assert(s@.skip(i as int).skip(1) =~= s@.skip(i + 1));
        i = i + 1;
    }
    let ghost rest = s@.skip(i as int);
    assert(trimmed_start(s@, ws) == rest);
    let mut k: usize = v.len();
    assert(s@.subrange(i as int, k as int) =~= rest);
    while k > i && is_white_space(v[k - 1])
        invariant
            v@ == s@,
            i <= k <= v@.len(),
            ws == (|c: char| white_space(c)),
            trimmed_end(s@.subrange(i as int, k as int), ws) == trimmed_end(rest, ws),
        decreases k,
    {
        assert(s@.subrange(i as int, k as int).drop_last() =~= s@.subrange(i as int, k - 1));
        k = k - 1;
    }
    string_of(&v, i, k)
}

/// The decimal digit for `d`.
fn digit_char(d: u8) -> (c: char)
    requires
        d < 10,
    ensures
        c == digit(d as nat),
{
    (48 + d) as char
}

/// `n` in decimal.
pub fn decimal_of(n: u64) -> (s: String)
    ensures
        s@ == decimal(n as nat),
    decreases n,
{
    if n < 10 {
        let mut s = String::new();
        s.push(digit_char(n as u8));
        assert(s@ =~= decimal(n as nat));
        s
    } else {
        let mut s = decimal_of(n / 10);
        s.push(digit_char((n % 10) as u8));
        s
    }
}

// ---------------------------------------------------------------------------
// Positions
// ---------------------------------------------------------------------------

/// The position of the first `c` in `s`; the length of `s` where there is none.
pub open spec fn first_index(s: Seq<char>, c: char) -> int
    decreases s.len(),
{
    if s.len() == 0 || s[0] == c {
        0
    } else {
        first_index(s.skip(1), c) + 1
    }
}

/// A text that holds `c` at `j` holds it first no later than there.
pub proof fn first_index_found(s: Seq<char>, c: char, j: int)
    requires
        0 <= j < s.len(),
        s[j] == c,
    ensures
        0 <= first_index(s, c) <= j,
        s[first_index(s, c)] == c,
        !s.take(first_index(s, c)).contains(c),
    decreases s.len(),
{
    if s[0] != c {
        assert(s.skip(1)[j - 1] == c);
        first_index_found(s.skip(1), c, j - 1);
        let k = first_index(s.skip(1), c);
        assert(s.skip(1)[k] == s[k + 1]);
        assert forall|i: int| 0 <= i < k + 1 implies s[i] != c by {
            if i > 0 {
                assert(s.skip(1).take(k)[i - 1] == s[i]);
                assert(!s.skip(1).take(k).contains(c));
            }
        }
    }
}

/// What [`last_index`] finds is an occurrence with none after it.
pub proof fn last_index_is_last(s: Seq<char>, c: char)
    ensures
        match last_index(s, c) {
            Some(i) => 0 <= i < s.len() && s[i] == c && forall|j: int|
                i < j < s.len() ==> s[j] != c,
            None => !s.contains(c),
        },
    decreases s.len(),
{
    if s.len() > 0 && s.last() != c {
        last_index_is_last(s.drop_last(), c);
        match last_index(s.drop_last(), c) {
            Some(i) => {
                assert(s.drop_last()[i] == s[i]);
                assert forall|j: int| i < j < s.len() implies s[j] != c by {
                    if j < s.len() - 1 {
                        assert(s.drop_last()[j] == s[j]);
                    }
                }
            },
            None => {
                assert forall|j: int| 0 <= j < s.len() implies s[j] != c by {
                    if j < s.len() - 1 {
                        assert(s.drop_last()[j] == s[j]);
                    }
                }
            },
        }
    }
}

/// An occurrence of `c` with none after it is the last one.
pub proof fn last_index_at(s: Seq<char>, c: char, i: int)
    requires
        0 <= i < s.len(),
        s[i] == c,
        forall|j: int| i < j < s.len() ==> s[j] != c,
    ensures
        last_index(s, c) == Some(i),
{
    last_index_is_last(s, c);
}

// ---------------------------------------------------------------------------
// Laws
// ---------------------------------------------------------------------------

/// Whether two characters are equal, or the two cases of one ASCII letter.
pub open spec fn same_letter(a: char, b: char) -> bool {
    ||| a == b
    ||| 'a' <= a && a <= 'z' && b as u32 + 32 == a as u32
    ||| 'a' <= b && b <= 'z' && a as u32 + 32 == b as u32
}

/// Whether two texts are equal character by character, up to the case of ASCII
/// letters.
pub open spec fn same_letters(a: Seq<char>, b: Seq<char>) -> bool {
    &&& a.len() == b.len()
    &&& forall|i: int| 0 <= i < a.len() ==> same_letter(#[trigger] a[i], b[i])
}

proof fn lowered_letters(a: char, b: char)
    ensures
        ascii_lower(a) == ascii_lower(b) <==> same_letter(a, b),
        ascii_lower(ascii_lower(a)) == ascii_lower(a),
{
    let (x, y) = (ascii_lower(a), ascii_lower(b));
    assert('A' <= a && a <= 'Z' ==> x as u32 == a as u32 + 32);
    assert('A' <= b && b <= 'Z' ==> y as u32 == b as u32 + 32);
    char_u32_cast(x, x as u32);
    char_u32_cast(y, y as u32);
    char_u32_cast(a, a as u32);
    char_u32_cast(b, b as u32);
}

/// The ASCII lowercase of two texts is the same exactly where they are equal up to the
/// case of ASCII letters.
pub proof fn lowercase_tells_letters(a: Seq<char>, b: Seq<char>)
    ensures
        ascii_lowered(a) == ascii_lowered(b) <==> same_letters(a, b),
        ascii_lowered(ascii_lowered(a)) == ascii_lowered(a),
{
    let (x, y) = (ascii_lowered(a), ascii_lowered(b));
    assert(ascii_lowered(x) =~= x) by {
        assert forall|i: int| 0 <= i < a.len() implies ascii_lowered(x)[i] == x[i] by {
            lowered_letters(a[i], a[i]);
        }
    }
    if x == y {
        assert(a.len() == x.len() && b.len() == y.len());
        assert forall|i: int| 0 <= i < a.len() implies same_letter(#[trigger] a[i], b[i]) by {
            assert(x[i] == ascii_lower(a[i]) && y[i] == ascii_lower(b[i]));
            lowered_letters(a[i], b[i]);
        }
    }
    if same_letters(a, b) {
        assert forall|i: int| 0 <= i < a.len() implies x[i] == y[i] by {
            assert(same_letter(a[i], b[i]));
            lowered_letters(a[i], b[i]);
        }
        assert(x =~= y);
    }
}

/// Lists with the same views hold the same texts, each in its place.
pub proof fn same_texts(a: Seq<String>, b: Seq<String>)
    requires
        texts(a) == texts(b),
    ensures
        a.len() == b.len(),
        forall|i: int| 0 <= i < a.len() ==> (#[trigger] a[i])@ == b[i]@,
{
    assert(texts(a).len() == a.len());
    assert(texts(b).len() == b.len());
    assert forall|i: int| 0 <= i < a.len() implies (#[trigger] a[i])@ == b[i]@ by {
        assert(texts(a)[i] == a[i]@);
        assert(texts(b)[i] == b[i]@);
    }
}

/// Replacing a text that does not occur leaves the text as it is.
pub proof fn replace_absent(s: Seq<char>, from: Seq<char>, to: Seq<char>)
    requires
        !contains_text(s, from),
    ensures
        replaced(s, from, to) == s,
    decreases s.len(),
{
    if from.len() == 0 {
        assert(s.subrange(0, 0) =~= from);
        assert(occurs_at(s, from, 0));
    } else if s.len() >= from.len() {
        if from.is_prefix_of(s) {
            assert(occurs_at(s, from, 0));
        }
        assert forall|i: int| !occurs_at(s.skip(1), from, i) by {
            if occurs_at(s.skip(1), from, i) {
                assert(s.subrange(i + 1, i + 1 + from.len()) =~= s.skip(1).subrange(
                    i,
                    i + from.len(),
                ));
                assert(occurs_at(s, from, i + 1));
            }
        }
        replace_absent(s.skip(1), from, to);
        assert(seq![s[0]] + s.skip(1) =~= s);
    }
}

/// A text that occurs once is replaced there, and what stands around it stays.
pub proof fn replace_single(
    before: Seq<char>,
    from: Seq<char>,
    after: Seq<char>,
    to: Seq<char>,
)
    requires
        from.len() > 0,
        forall|i: int| #[trigger] occurs_at(before + from + after, from, i) ==> i == before.len(),
    ensures
        replaced(before + from + after, from, to) == before + to + after,
    decreases before.len(),
{
    let s = before + from + after;
    let n = from.len() as int;
    if before.len() == 0 {
        assert(s =~= from + after);
        assert(s.subrange(0, n) =~= from);
        assert(s.skip(n) =~= after);
        assert forall|i: int| !occurs_at(after, from, i) by {
            if occurs_at(after, from, i) {
                assert(s.subrange(i + n, i + n + n) =~= after.subrange(i, i + n));
                assert(occurs_at(s, from, i + n));
            }
        }
        replace_absent(after, from, to);
        assert(before + to + after =~= to + after);
    } else {
        if from.is_prefix_of(s) {
            assert(occurs_at(s, from, 0));
        }
        let rest = before.skip(1);
        let t = rest + from + after;
        assert(s.skip(1) =~= t);
        assert forall|i: int| #[trigger] occurs_at(t, from, i) implies i == rest.len() by {
            assert(s.subrange(i + 1, i + 1 + n) =~= t.subrange(i, i + n));
            assert(occurs_at(s, from, i + 1));
        }
        replace_single(rest, from, after, to);
        assert(seq![s[0]] + (rest + to + after) =~= before + to + after);
    }
}

/// The first place where a text occurs has it replaced, and so has what follows.
pub proof fn replace_first(before: Seq<char>, from: Seq<char>, after: Seq<char>, to: Seq<char>)
    requires
        from.len() > 0,
        forall|i: int| #[trigger] occurs_at(before + from + after, from, i) ==> i >= before.len(),
    ensures
        replaced(before + from + after, from, to) == before + to + replaced(after, from, to),
    decreases before.len(),
{
    let s = before + from + after;
    let n = from.len() as int;
    if before.len() == 0 {
        assert(s =~= from + after);
        assert(s.subrange(0, n) =~= from);
        assert(s.skip(n) =~= after);
        assert(before + to =~= to);
    } else {
        if from.is_prefix_of(s) {
            assert(occurs_at(s, from, 0));
        }
        let rest = before.skip(1);
        let t = rest + from + after;
        assert(s.skip(1) =~= t);
        assert forall|i: int| #[trigger] occurs_at(t, from, i) implies i >= rest.len() by {
            assert(s.subrange(i + 1, i + 1 + n) =~= t.subrange(i, i + n));
            assert(occurs_at(s, from, i + 1));
        }
        replace_first(rest, from, after, to);
        assert(seq![s[0]] + (rest + to + replaced(after, from, to)) =~= before + to + replaced(
            after,
            from,
            to,
        ));
    }
}

/// Digits without a leading zero are the decimal form of the number they stand for.
pub proof fn digits_are_decimal(s: Seq<char>)
    requires
        is_digits(s),
        s.len() == 1 || s[0] != '0',
    ensures
        decimal(number_of(s)) == s,
        s[0] != '0' ==> number_of(s) > 0,
    decreases s.len(),
{
    let d = (s.last() as u32 - '0' as u32) as nat;
    assert(is_ascii_digit(s.last()));
    assert(digit(d) == s.last());
    if s.len() == 1 {
        assert(s.drop_last() =~= Seq::<char>::empty());
        assert(number_of(s.drop_last()) == 0);
        assert(s =~= seq![s.last()]);
    } else {
        let p = s.drop_last();
        assert(forall|i: int| 0 <= i < p.len() ==> is_ascii_digit(#[trigger] p[i])) by {
            assert forall|i: int| 0 <= i < p.len() implies is_ascii_digit(#[trigger] p[i]) by {
                assert(p[i] == s[i]);
            }
        }
        assert(p[0] == s[0]);
        digits_are_decimal(p);
        let n = number_of(s);
        assert(n == number_of(p) * 10 + d);
        assert(n / 10 == number_of(p) && n % 10 == d);
        assert(s =~= p.push(s.last()));
    }
}

/// The decimal form of a number is a run of digits without a leading zero that
/// stands for it.
pub proof fn decimal_is_digits(n: nat)
    ensures
        is_digits(decimal(n)),
        decimal(n).len() == 1 || decimal(n)[0] != '0',
        number_of(decimal(n)) == n,
        n > 0 ==> decimal(n)[0] != '0',
    decreases n,
{
    let d = n % 10;
    assert(is_ascii_digit(digit(d)));
    assert((digit(d) as u32 - '0' as u32) as nat == d);
    if n < 10 {
        assert(decimal(n).drop_last() =~= Seq::<char>::empty());
        assert(number_of(decimal(n).drop_last()) == 0);
    } else {
        decimal_is_digits(n / 10);
        let p = decimal(n / 10);
        assert(decimal(n).drop_last() =~= p);
        assert(decimal(n)[0] == p[0]);
        assert forall|i: int| 0 <= i < decimal(n).len() implies is_ascii_digit(
            #[trigger] decimal(n)[i],
        ) by {
            if i < p.len() {
                assert(decimal(n)[i] == p[i]);
            }
        }
    }
}

/// A text is cut at every separator: two of them leave three pieces or more.
pub proof fn split_at_two<A>(s: Seq<A>, c: A, i: int, j: int)
    requires
        0 <= i < j < s.len(),
        s[i] == c,
        s[j] == c,
    ensures
        split_on(s, c).len() >= 3,
    decreases s.len(),
{
    let before = s.drop_last();
    split_on_nonempty(before, c);
    if j < s.len() - 1 {
        assert(before[i] == c && before[j] == c);
        split_at_two(before, c, i, j);
    } else {
        split_at_one(before, c, i);
    }
}

/// A separator leaves two pieces or more.
pub proof fn split_at_one<A>(s: Seq<A>, c: A, i: int)
    requires
        0 <= i < s.len(),
        s[i] == c,
    ensures
        split_on(s, c).len() >= 2,
    decreases s.len(),
{
    let before = s.drop_last();
    split_on_nonempty(before, c);
    if i < s.len() - 1 {
        assert(before[i] == c);
        split_at_one(before, c, i);
    }
}

/// What follows the last separator is the last piece.
pub proof fn split_append<A>(s: Seq<A>, c: A, t: Seq<A>)
    requires
        !t.contains(c),
    ensures
        split_on(s.push(c) + t, c) == split_on(s, c).push(t),
    decreases t.len(),
{
    let whole = s.push(c) + t;
    if t.len() == 0 {
        assert(whole =~= s.push(c));
        assert(whole.drop_last() =~= s);
        assert(t =~= Seq::<A>::empty());
    } else {
        assert(!t.drop_last().contains(c)) by {
            if t.drop_last().contains(c) {
                let j = choose|j: int| 0 <= j < t.len() - 1 && t.drop_last()[j] == c;
                assert(t[j] == c);
            }
        }
        assert(t[t.len() - 1] != c);
        split_append(s, c, t.drop_last());
        assert(whole.drop_last() =~= s.push(c) + t.drop_last());
        assert(whole.last() == t.last());
        assert(t.drop_last().push(t.last()) =~= t);
        let before = split_on(s, c).push(t.drop_last());
        assert(before.update(before.len() - 1, before.last().push(t.last())) =~= split_on(
            s,
            c,
        ).push(t));
    }
}

/// The pieces of a text determine the text.
pub proof fn pieces_determine_text<A>(a: Seq<A>, b: Seq<A>, c: A)
    requires
        split_on(a, c) == split_on(b, c),
    ensures
        a == b,
    decreases a.len(),
{
    let (x, y) = (split_on(a, c), split_on(b, c));
    if a.len() == 0 {
        if b.len() > 0 {
            split_on_nonempty(b.drop_last(), c);
            assert(x.last().len() == 0 && x.len() == 1);
        }
        assert(a =~= b);
    } else if b.len() == 0 {
        split_on_nonempty(a.drop_last(), c);
        assert(y.last().len() == 0 && y.len() == 1);
    } else {
        let (p, q) = (a.drop_last(), b.drop_last());
        let (u, v) = (split_on(p, c), split_on(q, c));
        split_on_nonempty(p, c);
        split_on_nonempty(q, c);
        if a.last() == c {
            assert(x.last().len() == 0);
            assert(b.last() == c);
            assert(u =~= x.drop_last() && v =~= y.drop_last());
        } else {
            assert(x.last() == u.last().push(a.last()));
            assert(x.last().len() > 0);
            assert(b.last() != c);
            assert(y.last() == v.last().push(b.last()));
            assert(x.last().drop_last() =~= u.last() && y.last().drop_last() =~= v.last());
            assert(a.last() == x.last().last() && b.last() == y.last().last());
            assert(u =~= x.update(x.len() - 1, u.last()));
            assert(v =~= y.update(y.len() - 1, v.last()));
        }
        pieces_determine_text(p, q, c);
        assert(a =~= p.push(a.last()) && b =~= q.push(b.last()));
    }
}

/// The first pieces of a text are those of its beginning, up to a separator.
pub proof fn pieces_are_of_a_beginning<A>(s: Seq<A>, c: A, m: int) -> (k: int)
    requires
        0 < m <= split_on(s, c).len(),
    ensures
        0 <= k <= s.len(),
        split_on(s.take(k), c) == split_on(s, c).take(m),
        m < split_on(s, c).len() ==> k < s.len() && s[k] == c,
        m == split_on(s, c).len() ==> k == s.len(),
    decreases s.len(),
{
    let all = split_on(s, c);
    if m == all.len() {
        assert(s.take(s.len() as int) =~= s);
        assert(all.take(m) =~= all);
        s.len() as int
    } else {
        let p = s.drop_last();
        let before = split_on(p, c);
        split_on_nonempty(p, c);
        if s.last() == c && m == before.len() {
            assert(s.take(s.len() - 1) =~= p);
            assert(all.take(m) =~= before);
            s.len() - 1
        } else {
            let k = pieces_are_of_a_beginning(p, c, m);
            assert(s.take(k) =~= p.take(k));
            assert(all.take(m) =~= before.take(m));
            assert(p[k] == s[k]);
            k
        }
    }
}

/// The pieces of two texts with a separator between them are those of both.
pub proof fn split_between<A>(s: Seq<A>, c: A, t: Seq<A>)
    ensures
        split_on(s.push(c) + t, c) == split_on(s, c) + split_on(t, c),
    decreases t.len(),
{
    let whole = s.push(c) + t;
    if t.len() == 0 {
        assert(whole =~= s.push(c));
        assert(whole.drop_last() =~= s);
        assert(t =~= Seq::<A>::empty());
        assert(split_on(s, c).push(Seq::<A>::empty()) =~= split_on(s, c) + split_on(t, c));
    } else {
        let u = t.drop_last();
        split_between(s, c, u);
        assert(whole.drop_last() =~= s.push(c) + u);
        assert(whole.last() == t.last());
        split_on_nonempty(u, c);
        let before = split_on(s, c) + split_on(u, c);
        assert(before.last() == split_on(u, c).last());
        if t.last() == c {
            assert(before.push(Seq::<A>::empty()) =~= split_on(s, c) + split_on(t, c));
        } else {
            assert(before.update(before.len() - 1, before.last().push(t.last())) =~= split_on(s, c)
                + split_on(t, c));
        }
    }
}

/// Trimming an end cuts off the characters of the set there, all of them and no other.
pub proof fn trimming_cuts_the_end(s: Seq<char>, end: Seq<char>, set: spec_fn(char) -> bool)
    requires
        s.len() == 0 || !set(s.last()),
        forall|i: int| 0 <= i < end.len() ==> set(#[trigger] end[i]),
    ensures
        trimmed_end(s + end, set) == s,
    decreases end.len(),
{
    if end.len() == 0 {
        assert(s + end =~= s);
    } else {
        assert((s + end).last() == end.last());
        assert(end[end.len() - 1] == end.last());
        assert((s + end).drop_last() =~= s + end.drop_last());
        trimming_cuts_the_end(s, end.drop_last(), set);
    }
}

/// Trimming a start cuts off the characters of the set there, all of them and no other.
pub proof fn trimming_cuts_the_start(start: Seq<char>, s: Seq<char>, set: spec_fn(char) -> bool)
    requires
        s.len() == 0 || !set(s[0]),
        forall|i: int| 0 <= i < start.len() ==> set(#[trigger] start[i]),
    ensures
        trimmed_start(start + s, set) == s,
    decreases start.len(),
{
    if start.len() == 0 {
        assert(start + s =~= s);
    } else {
        let rest = start.skip(1);
        assert((start + s)[0] == start[0]);
        assert((start + s).skip(1) =~= rest + s);
        assert forall|i: int| 0 <= i < rest.len() implies set(#[trigger] rest[i]) by {
            assert(rest[i] == start[i + 1]);
        }
        trimming_cuts_the_start(rest, s, set);
    }
}

/// A text without the white space around it.
pub proof fn trimming_cuts_white_space(start: Seq<char>, s: Seq<char>, end: Seq<char>)
    requires
        s.len() == 0 || (!white_space(s[0]) && !white_space(s.last())),
        forall|i: int| 0 <= i < start.len() ==> white_space(#[trigger] start[i]),
        forall|i: int| 0 <= i < end.len() ==> white_space(#[trigger] end[i]),
    ensures
        trimmed(start + s + end) == s,
{
    let ws = |c: char| white_space(c);
    if s.len() == 0 {
        let all = start + end;
        let none = Seq::<char>::empty();
        assert(start + s + end =~= all + none);
        assert forall|i: int| 0 <= i < all.len() implies ws(#[trigger] all[i]) by {
            if i < start.len() {
                assert(all[i] == start[i]);
            } else {
                assert(all[i] == end[i - start.len()]);
            }
        }
        trimming_cuts_the_start(all, none, ws);
        assert(s =~= none);
    } else {
        assert(start + s + end =~= start + (s + end));
        assert((s + end)[0] == s[0]);
        trimming_cuts_the_start(start, s + end, ws);
        trimming_cuts_the_end(s, end, ws);
    }
}

/// Something is left of a text without the white space around it exactly where it holds
/// more than white space.
pub proof fn trimming_leaves_content(s: Seq<char>)
    ensures
        trimmed(s).len() > 0 <==> exists|i: int| 0 <= i < s.len() && !white_space(#[trigger] s[i]),
{
    let ws = |c: char| white_space(c);
    if forall|i: int| 0 <= i < s.len() ==> white_space(#[trigger] s[i]) {
        let none = Seq::<char>::empty();
        assert(s + none + none =~= s);
        trimming_cuts_white_space(s, none, none);
    } else {
        let i = choose|i: int| 0 <= i < s.len() && !white_space(#[trigger] s[i]);
        started_keeps(s, i);
    }
}

proof fn started_keeps(s: Seq<char>, i: int)
    requires
        0 <= i < s.len(),
        !white_space(s[i]),
    ensures
        trimmed(s).len() > 0,
    decreases s.len(),
{
    let ws = |c: char| white_space(c);
    if white_space(s[0]) {
        assert(s.skip(1)[i - 1] == s[i]);
        started_keeps(s.skip(1), i - 1);
    } else {
        ended_keeps(s);
    }
}

proof fn ended_keeps(s: Seq<char>)
    requires
        s.len() > 0,
        !white_space(s[0]),
    ensures
        trimmed_end(s, |c: char| white_space(c)).len() > 0,
    decreases s.len(),
{
    if white_space(s.last()) {
        assert(s.drop_last()[0] == s[0]);
        ended_keeps(s.drop_last());
    }
}

/// How a list of texts is shown: each as it is shown alone, with a comma between them,
/// in brackets.
pub proof fn lists_are_shown_text_by_text(list: Seq<Seq<char>>, s: Seq<char>)
    ensures
        debug_list(Seq::empty()) == seq!['[', ']'],
        debug_list(seq![s]) == seq!['['] + debug_text(s) + seq![']'],
        list.len() > 0 ==> debug_list(list.push(s)) == debug_list(list).drop_last() + seq![',', ' ']
            + debug_text(s) + seq![']'],
{
    reveal_strlit("[");
    reveal_strlit("]");
    reveal_strlit(", ");
    assert("["@ =~= seq!['[']);
    assert("]"@ =~= seq![']']);
    assert(", "@ =~= seq![',', ' ']);
    assert(debug_list(Seq::empty()) =~= seq!['[', ']']);
    let more = list.push(s);
    same_shown(list, more, list.len());
    if list.len() > 0 {
        let head = "["@ + debug_among(list, list.len());
        assert(debug_list(list).drop_last() =~= head);
        assert(debug_list(more) =~= head + seq![',', ' '] + debug_text(s) + seq![']']);
    }
}

proof fn same_shown(a: Seq<Seq<char>>, b: Seq<Seq<char>>, k: nat)
    requires
        k <= a.len(),
        k <= b.len(),
        forall|i: int| 0 <= i < k ==> a[i] == b[i],
    ensures
        debug_among(a, k) == debug_among(b, k),
    decreases k,
{
    if k > 1 {
        same_shown(a, b, (k - 1) as nat);
    }
}

/// Among ASCII the characters that count as white space are the space and those from tab
/// to carriage return; beyond it there are others, such as the no-break space.
pub proof fn white_space_is_what_it_says(c: char)
    ensures
        c as u32 <= 127 ==> (white_space(c) <==> c == ' ' || c == '\t' || c == '\n' || c == '\r'
            || c as u32 == 11 || c as u32 == 12),
        white_space('\u{a0}'),
        white_space('\u{3000}'),
        white_space('\u{2028}'),
{
    char_u32_cast(c, c as u32);
    char_u32_cast(' ', 32);
    char_u32_cast('\t', 9);
    char_u32_cast('\n', 10);
    char_u32_cast('\r', 13);
}

} // verus!

//! Host paths as byte strings, taken apart and put together the way Unix does.
use vstd::prelude::*;
use vstd::utf8::*;

use crate::bytes;
use crate::text;

verus! {

/// A path on the host: any bytes.
#[derive(Debug, PartialEq, Eq)]
pub struct HostPath {
    pub bytes: Vec<u8>,
}

/// The separator, `/`.
pub const SEP: u8 = 47;

/// The dot, `.`.
pub const DOT: u8 = 46;

/// Whether a path begins at the root.
pub open spec fn is_absolute_path(p: Seq<u8>) -> bool {
    p.len() > 0 && p[0] == SEP
}

/// `rel` seen from `base`; an absolute `rel` stands for itself.
pub open spec fn joined(base: Seq<u8>, rel: Seq<u8>) -> Seq<u8> {
    if is_absolute_path(rel) {
        rel
    } else if base.len() == 0 || base.last() == SEP {
        base + rel
    } else {
        base.push(SEP) + rel
    }
}

/// A path without the separators and `.` components at its end.
pub open spec fn tail_trimmed(p: Seq<u8>) -> Seq<u8>
    decreases p.len(),
{
    if p.len() > 1 && (p.last() == SEP || (p.last() == DOT && p[p.len() - 2] == SEP)) {
        tail_trimmed(p.drop_last())
    } else {
        p
    }
}

/// A path up to its last separator, which is included.
pub open spec fn up_to_sep(p: Seq<u8>) -> Seq<u8>
    decreases p.len(),
{
    if p.len() == 0 || p.last() == SEP {
        p
    } else {
        up_to_sep(p.drop_last())
    }
}

/// The path without its last component: nothing for the empty path and the root.
pub open spec fn parent_of(p: Seq<u8>) -> Option<Seq<u8>> {
    let body = tail_trimmed(p);
    if body.len() == 0 || body == seq![SEP] {
        None
    } else {
        Some(tail_trimmed(up_to_sep(body)))
    }
}

/// The last component of the path, unless that is the root, `.` or `..`.
pub open spec fn file_name_of(p: Seq<u8>) -> Option<Seq<u8>> {
    let body = tail_trimmed(p);
    let name = body.skip(up_to_sep(body).len() as int);
    if name.len() == 0 || name == seq![DOT] || name == seq![DOT, DOT] {
        None
    } else {
        Some(name)
    }
}

/// Whether a piece between separators is a component: it is not empty, and `.`
/// counts only at the very start.
pub open spec fn is_component(pieces: Seq<Seq<u8>>, i: int) -> bool {
    &&& pieces[i].len() > 0
    &&& (i == 0 || pieces[i] != seq![DOT])
}

/// The components among the first `k` pieces.
pub open spec fn components_among(pieces: Seq<Seq<u8>>, k: nat) -> Seq<Seq<u8>>
    decreases k,
{
    if k == 0 {
        Seq::empty()
    } else if is_component(pieces, k - 1) {
        components_among(pieces, (k - 1) as nat).push(pieces[k - 1])
    } else {
        components_among(pieces, (k - 1) as nat)
    }
}

/// The components of a path; that of the root is the separator.
pub open spec fn components(p: Seq<u8>) -> Seq<Seq<u8>> {
    let pieces = text::split_on(p, SEP);
    let names = components_among(pieces, pieces.len());
    if is_absolute_path(p) {
        seq![seq![SEP]] + names
    } else {
        names
    }
}

/// Whether `p` is `base` or lies below it, component by component.
pub open spec fn lies_under(p: Seq<u8>, base: Seq<u8>) -> bool {
    components(base).is_prefix_of(components(p))
}

impl HostPath {
    pub open spec fn view(&self) -> Seq<u8> {
        self.bytes@
    }

    /// The path that a text spells.
    pub fn from_text(s: &str) -> (p: HostPath)
        ensures
            p@ == encode_utf8(s@),
    {
        let b = s.as_bytes();
        let mut bytes: Vec<u8> = Vec::new();
        let mut i: usize = 0;
        while i < b.len()
            invariant
                i <= b@.len(),
                bytes@ == b@.take(i as int),
            decreases b@.len() - i,
        {
            bytes.push(b[i]);
            assert(b@.take(i as int).push(b@[i as int]) =~= b@.take(i + 1));
            i = i + 1;
        }
        assert(b@.take(i as int) =~= b@);
        HostPath { bytes }
    }

    /// The path as text, with what is not UTF-8 replaced.
    pub fn lossy(&self) -> (s: String)
        ensures
            s@ == text::lossy_text(self@),
            valid_utf8(self@) ==> s@ == decode_utf8(self@),
    {
        text::from_utf8_lossy(self.bytes.as_slice())
    }

    /// The path as text, if it is UTF-8.
    pub fn to_str(&self) -> (s: Option<String>)
        ensures
            s is Some <==> valid_utf8(self@),
            s matches Some(t) ==> t@ == decode_utf8(self@),
    {
        text::from_utf8(self.bytes.as_slice())
    }

    /// Whether the path begins at the root.
    pub fn is_absolute(&self) -> (r: bool)
        ensures
            r == is_absolute_path(self@),
    {
        self.bytes.len() > 0 && self.bytes[0] == SEP
    }

    /// `rel` seen from this path.
    pub fn join(&self, rel: &HostPath) -> (r: HostPath)
        ensures
            r@ == joined(self@, rel@),
    {
        if rel.is_absolute() {
            return rel.clone();
        }
        let mut r = self.clone();
        if self.bytes.len() > 0 && self.bytes[self.bytes.len() - 1] != SEP {
            r.bytes.push(SEP);
        }
        let ghost head = r@;
        let mut i: usize = 0;
        assert(head + rel@.take(0) =~= head);
        while i < rel.bytes.len()
            invariant
                i <= rel@.len(),
                r@ == head + rel@.take(i as int),
            decreases rel@.len() - i,
        {
            r.bytes.push(rel.bytes[i]);
            assert((head + rel@.take(i as int)).push(rel@[i as int]) =~= head + rel@.take(i + 1));
            i = i + 1;
        }
        assert(rel@.take(i as int) =~= rel@);
        r
    }

    /// The path `name` seen from this path.
    pub fn join_text(&self, name: &str) -> (r: HostPath)
        ensures
            r@ == joined(self@, encode_utf8(name@)),
    {
        let rel = HostPath::from_text(name);
        self.join(&rel)
    }

    /// The length of the path without the separators and `.` at its end, looking
    /// at its first `n` bytes only.
    fn trimmed_len(&self, n: usize) -> (k: usize)
        requires
            n <= self@.len(),
        ensures
            k <= n,
            self@.take(k as int) == tail_trimmed(self@.take(n as int)),
    {
        let mut k: usize = n;
        while k > 1 && (self.bytes[k - 1] == SEP || (self.bytes[k - 1] == DOT && self.bytes[k - 2]
            == SEP))
            invariant
                k <= n <= self@.len(),
                tail_trimmed(self@.take(k as int)) == tail_trimmed(self@.take(n as int)),
            decreases k,
        {
            assert(self@.take(k as int).drop_last() =~= self@.take(k - 1));
            k = k - 1;
        }
        k
    }

    /// The length of the first `n` bytes up to their last separator.
    fn sep_len(&self, n: usize) -> (k: usize)
        requires
            n <= self@.len(),
        ensures
            k <= n,
            self@.take(k as int) == up_to_sep(self@.take(n as int)),
    {
        let mut k: usize = n;
        while k > 0 && self.bytes[k - 1] != SEP
            invariant
                k <= n <= self@.len(),
                up_to_sep(self@.take(k as int)) == up_to_sep(self@.take(n as int)),
            decreases k,
        {
            assert(self@.take(k as int).drop_last() =~= self@.take(k - 1));
            k = k - 1;
        }
        k
    }

    /// The path without its last component.
    pub fn parent(&self) -> (r: Option<HostPath>)
        ensures
            match r {
                Some(p) => parent_of(self@) == Some(p@),
                None => parent_of(self@) is None,
            },
    {
        let n = self.bytes.len();
        assert(self@.take(n as int) =~= self@);
        let body = self.trimmed_len(n);
        let ghost b = tail_trimmed(self@);
        if body == 0 {
            return None;
        }
        if body == 1 && self.bytes[0] == SEP {
            assert(b =~= seq![SEP]);
            return None;
        }
        assert(b != seq![SEP]) by {
            if b == seq![SEP] {
                assert(b.len() == 1);
                assert(b[0] == self@[0]);
            }
        }
        let head = self.sep_len(body);
        let k = self.trimmed_len(head);
        let bytes = bytes::copy_bytes(self.bytes.as_slice(), 0, k);
        assert(bytes@ =~= self@.take(k as int));
        Some(HostPath { bytes })
    }

    /// The last component of the path.
    pub fn file_name(&self) -> (r: Option<HostPath>)
        ensures
            match r {
                Some(p) => file_name_of(self@) == Some(p@),
                None => file_name_of(self@) is None,
            },
    {
        let n = self.bytes.len();
        assert(self@.take(n as int) =~= self@);
        let body = self.trimmed_len(n);
        let head = self.sep_len(body);
        let name = bytes::copy_bytes(self.bytes.as_slice(), head, body);
        let ghost b = tail_trimmed(self@);
        assert(up_to_sep(b).len() == head);
        assert(name@ =~= b.skip(head as int));
        if name.len() == 0 {
            return None;
        }
        if name.len() == 1 && name[0] == DOT {
            assert(name@ =~= seq![DOT]);
            return None;
        }
        if name.len() == 2 && name[0] == DOT && name[1] == DOT {
            assert(name@ =~= seq![DOT, DOT]);
            return None;
        }
        Some(HostPath { bytes: name })
    }

    /// The components of the path.
    fn parts(&self) -> (r: Vec<Vec<u8>>)
        ensures
            bytes::byte_lists(r@) == components(self@),
    {
        let pieces = bytes::split_bytes(self.bytes.as_slice(), SEP);
        let ghost all = text::split_on(self@, SEP);
        let mut r: Vec<Vec<u8>> = Vec::new();
        let ghost root: Seq<Seq<u8>> = if is_absolute_path(self@) {
            seq![seq![SEP]]
        } else {
            Seq::empty()
        };
        if self.is_absolute() {
            let mut sep: Vec<u8> = Vec::new();
            sep.push(SEP);
            assert(sep@ =~= seq![SEP]);
            r.push(sep);
        }
        assert(bytes::byte_lists(r@) =~= root + components_among(all, 0));
        let mut i: usize = 0;
        while i < pieces.len()
            invariant
                all == bytes::byte_lists(pieces@),
                i <= pieces@.len(),
                bytes::byte_lists(r@) == root + components_among(all, i as nat),
            decreases pieces@.len() - i,
        {
            let ghost before = bytes::byte_lists(r@);
            assert(all[i as int] == pieces@[i as int]@);
            let dot = pieces[i].len() == 1 && pieces[i][0] == DOT;
            proof {
                if dot {
                    assert(all[i as int] =~= seq![DOT]);
                }
            }
            if pieces[i].len() > 0 && (i == 0 || !dot) {
                let piece = bytes::copy_bytes(pieces[i].as_slice(), 0, pieces[i].len());
                assert(piece@ =~= all[i as int]);
                r.push(piece);
                assert(bytes::byte_lists(r@) =~= before.push(all[i as int]));
                assert(bytes::byte_lists(r@) =~= root + components_among(all, (i + 1) as nat));
            }
            i = i + 1;
        }
        assert(bytes::byte_lists(r@) =~= components(self@));
        r
    }

    /// Whether the path is `base` or lies below it.
    pub fn starts_with(&self, base: &HostPath) -> (r: bool)
        ensures
            r == lies_under(self@, base@),
    {
        let a = self.parts();
        let b = base.parts();
        let ghost x = components(self@);
        let ghost y = components(base@);
        if b.len() > a.len() {
            return false;
        }
        let mut i: usize = 0;
        while i < b.len()
            invariant
                x == bytes::byte_lists(a@),
                y == bytes::byte_lists(b@),
                x == components(self@),
                y == components(base@),
                i <= b@.len() <= a@.len(),
                forall|j: int| 0 <= j < i ==> x[j] == y[j],
            decreases b@.len() - i,
        {
            assert(x[i as int] == a@[i as int]@);
            assert(y[i as int] == b@[i as int]@);
            if !bytes::bytes_eq(&a[i], &b[i]) {
                assert(x.subrange(0, y.len() as int)[i as int] != y[i as int]);
                return false;
            }
            i = i + 1;
        }
        assert(x.subrange(0, y.len() as int) =~= y);
        true
    }

    /// Whether the two paths are the same bytes.
    pub fn same(&self, other: &HostPath) -> (r: bool)
        ensures
            r == (self@ == other@),
    {
        bytes::bytes_eq(&self.bytes, &other.bytes)
    }
}

impl Clone for HostPath {
    fn clone(&self) -> (r: Self)
        ensures
            r@ == self@,
    {
        let bytes = bytes::copy_bytes(self.bytes.as_slice(), 0, self.bytes.len());
        assert(bytes@ =~= self@);
        HostPath { bytes }
    }
}

// ---------------------------------------------------------------------------
// Laws
// ---------------------------------------------------------------------------

/// The text of two texts together is encoded as one after the other.
pub proof fn encoding_appends(a: Seq<char>, b: Seq<char>)
    ensures
        encode_utf8(a + b) == encode_utf8(a) + encode_utf8(b),
    decreases a.len(),
{
    if a.len() == 0 {
        assert(a + b =~= b);
        assert(encode_utf8(a) + encode_utf8(b) =~= encode_utf8(b));
    } else {
        assert((a + b).drop_first() =~= a.drop_first() + b);
        encoding_appends(a.drop_first(), b);
        assert(encode_utf8(a + b) =~= encode_utf8(a) + encode_utf8(b));
    }
}

/// The encoding of a text holds a separator only where the text does.
pub proof fn encoding_adds_no_separator(s: Seq<char>)
    requires
        !s.contains('/'),
    ensures
        !encode_utf8(s).contains(SEP),
    decreases s.len(),
{
    if s.len() > 0 {
        let rest = s.drop_first();
        assert forall|i: int| 0 <= i < rest.len() implies rest[i] != '/' by {
            assert(rest[i] == s[i + 1]);
        }
        encoding_adds_no_separator(rest);
        let c = s[0] as u32;
        assert(s[0] != '/');
        assert(c <= 0x7f ==> (c & 0x7f) as u8 == c) by (bit_vector);
        assert((0xc0 | ((c >> 6) & 0x1f) as u8) >= 0x80) by (bit_vector);
        assert((0xe0 | ((c >> 12) & 0x0f) as u8) >= 0x80) by (bit_vector);
        assert((0xf0 | ((c >> 18) & 0x7) as u8) >= 0x80) by (bit_vector);
        assert((0x80 | (c & 0x3f) as u8) >= 0x80) by (bit_vector);
        assert((0x80 | ((c >> 6) & 0x3f) as u8) >= 0x80) by (bit_vector);
        assert((0x80 | ((c >> 12) & 0x3f) as u8) >= 0x80) by (bit_vector);
        let first = encode_scalar(c);
        char_is_scalar(s[0]);
        assert(c != 47) by {
            char_u32_cast(s[0], c);
            char_u32_cast('/', 47);
        }
        assert forall|i: int| 0 <= i < first.len() implies first[i] != SEP by {
            assert(!has_width_1_encoding(c) ==> first[i] >= 0x80);
        }
        let all = encode_utf8(s);
        assert forall|i: int| 0 <= i < all.len() implies all[i] != SEP by {
            if i >= first.len() {
                assert(all[i] == encode_utf8(rest)[i - first.len()]);
            }
        }
    }
}

/// The encoding of a text that does not begin with a separator does not either, and is
/// not empty where the text is not.
pub proof fn encoding_begins_with(s: Seq<char>)
    requires
        s.len() > 0,
        s[0] != '/',
    ensures
        encode_utf8(s).len() > 0,
        encode_utf8(s)[0] != SEP,
{
    let one = s.take(1);
    assert(s =~= one + s.skip(1));
    encoding_appends(one, s.skip(1));
    assert(one[0] == s[0]);
    encoding_adds_no_separator(one);
    assert(encode_utf8(one) =~= encode_scalar(one[0] as u32)) by {
        assert(one.drop_first() =~= Seq::<char>::empty());
        assert(encode_utf8(one.drop_first()) =~= Seq::<u8>::empty());
    }
    assert(encode_utf8(s)[0] == encode_utf8(one)[0]);
    assert(encode_utf8(one).contains(encode_utf8(one)[0]));
}

proof fn up_to_sep_skips(p: Seq<u8>, n: int)
    requires
        0 < n <= p.len(),
        p[n - 1] == SEP,
        forall|i: int| n <= i < p.len() ==> #[trigger] p[i] != SEP,
    ensures
        up_to_sep(p) == p.take(n),
    decreases p.len(),
{
    if n == p.len() {
        assert(p.take(n) =~= p);
    } else {
        up_to_sep_skips(p.drop_last(), n);
        assert(p.drop_last().take(n) =~= p.take(n));
    }
}

/// A file lies in the directory that its name was joined to, if the name is a single
/// component and the directory is written without a separator or dot at its end.
pub proof fn files_lie_in_their_directory(dir: Seq<u8>, name: Seq<u8>)
    requires
        dir.len() > 0,
        dir.last() != SEP,
        dir.last() != DOT,
        name.len() > 0,
        name.last() != DOT,
        !name.contains(SEP),
    ensures
        parent_of(joined(dir, name)) == Some(dir),
{
    let p = joined(dir, name);
    assert(name[0] != SEP);
    assert(p == dir.push(SEP) + name);
    let n = dir.len() + 1;
    assert forall|i: int| n <= i < p.len() implies #[trigger] p[i] != SEP by {
        assert(p[i] == name[i - n]);
    }
    assert(p.last() == name.last());
    assert(tail_trimmed(p) == p);
    up_to_sep_skips(p, n as int);
    assert(p.take(n as int) =~= dir.push(SEP));
    assert(dir.push(SEP).drop_last() =~= dir);
    reveal_with_fuel(tail_trimmed, 2);
    assert(p.len() > 1);
}

/// Every path lies under itself, and a path under a path under `base` lies under
/// `base`.
pub proof fn lies_under_is_a_preorder(a: Seq<u8>, b: Seq<u8>, c: Seq<u8>)
    ensures
        lies_under(a, a),
        lies_under(a, b) && lies_under(b, c) ==> lies_under(a, c),
{
    assert(components(a).subrange(0, components(a).len() as int) =~= components(a));
    if lies_under(a, b) && lies_under(b, c) {
        let x = components(a);
        let y = components(b);
        let z = components(c);
        assert forall|i: int| 0 <= i < z.len() implies #[trigger] x[i] == z[i] by {
            assert(y.subrange(0, z.len() as int)[i] == z[i]);
            assert(x.subrange(0, y.len() as int)[i] == y[i]);
        }
        assert(x.subrange(0, z.len() as int) =~= z);
    }
}

/// Joining puts one separator between a directory and a name; an absolute path stands
/// for itself.
pub proof fn joining_puts_one_separator(base: Seq<u8>, rel: Seq<u8>)
    ensures
        rel.len() > 0 && rel[0] == 47u8 ==> joined(base, rel) == rel,
        (rel.len() == 0 || rel[0] != 47u8) && base.len() > 0 && base.last() != 47u8 ==> joined(
            base,
            rel,
        ) == base + seq![47u8] + rel,
        (rel.len() == 0 || rel[0] != 47u8) && base.len() > 0 && base.last() == 47u8 ==> joined(
            base,
            rel,
        ) == base + rel,
        (rel.len() == 0 || rel[0] != 47u8) && base.len() == 0 ==> joined(base, rel) == rel,
{
    assert(base.push(SEP) =~= base + seq![47u8]);
    assert(base.len() == 0 ==> base + rel =~= rel);
}

/// The name of a file is what was joined to its directory, if it is a single component
/// and neither `.` nor `..`.
pub proof fn files_have_their_names(dir: Seq<u8>, name: Seq<u8>)
    requires
        dir.len() > 0,
        dir.last() != SEP,
        name.len() > 0,
        name.last() != DOT,
        !name.contains(SEP),
    ensures
        file_name_of(joined(dir, name)) == Some(name),
{
    let p = joined(dir, name);
    assert(name[0] != SEP);
    assert(p == dir.push(SEP) + name);
    let n = dir.len() + 1;
    assert forall|i: int| n <= i < p.len() implies #[trigger] p[i] != SEP by {
        assert(p[i] == name[i - n]);
    }
    assert(p.last() == name.last());
    assert(name.last() != SEP) by {
        assert(name[name.len() - 1] != SEP);
    }
    assert(tail_trimmed(p) == p);
    up_to_sep_skips(p, n as int);
    assert(p.skip(n as int) =~= name);
    assert(name != seq![DOT] && name != seq![DOT, DOT]) by {
        assert(seq![DOT].last() == DOT && seq![DOT, DOT].last() == DOT);
    }
}

/// Whether a path is written as the host resolves paths: it begins at the root, and
/// between its separators stand names, none of them empty or a single dot.
pub open spec fn is_resolved(p: Seq<u8>) -> bool {
    &&& p.len() > 1
    &&& p[0] == 47u8
    &&& forall|i: int|
        1 <= i < text::split_on(p, 47u8).len() ==> (#[trigger] text::split_on(p, 47u8)[i]).len() > 0
            && text::split_on(p, 47u8)[i] != seq![46u8]
}

proof fn resolved_components(p: Seq<u8>, k: nat)
    requires
        is_resolved(p),
        1 <= k <= text::split_on(p, SEP).len(),
    ensures
        text::split_on(p, SEP)[0].len() == 0,
        components_among(text::split_on(p, SEP), k) == text::split_on(p, SEP).subrange(
            1,
            k as int,
        ),
    decreases k,
{
    let pieces = text::split_on(p, SEP);
    assert(p.take(0) =~= Seq::<u8>::empty());
    text::split_first(p, SEP, 0);
    if k == 1 {
        assert(components_among(pieces, 0) =~= pieces.subrange(1, 1));
    } else {
        resolved_components(p, (k - 1) as nat);
        assert(pieces[k - 1].len() > 0 && pieces[k - 1] != seq![DOT]);
        assert(pieces.subrange(1, k - 1).push(pieces[k - 1]) =~= pieces.subrange(1, k as int));
    }
}

/// A resolved path lies under a resolved directory exactly where it is the directory,
/// or goes on after it with a separator: a directory whose name merely begins alike is
/// another one.
pub proof fn lying_under_is_going_on(p: Seq<u8>, base: Seq<u8>)
    requires
        is_resolved(p),
        is_resolved(base),
    ensures
        lies_under(p, base) <==> p == base || (p.len() > base.len() && p.take(base.len() as int)
            == base && p[base.len() as int] == 47u8),
{
    let (x, y) = (text::split_on(p, SEP), text::split_on(base, SEP));
    text::split_on_nonempty(p, SEP);
    text::split_on_nonempty(base, SEP);
    resolved_components(p, x.len());
    resolved_components(base, y.len());
    let root = seq![seq![SEP]];
    let (a, b) = (components(p), components(base));
    assert(a == root + x.subrange(1, x.len() as int));
    assert(b == root + y.subrange(1, y.len() as int));
    assert(a.len() == x.len() && b.len() == y.len());
    assert(x[0] =~= y[0]);
    if lies_under(p, base) {
        let m = y.len() as int;
        assert(x.take(m) =~= y) by {
            assert forall|i: int| 0 <= i < m implies x[i] == y[i] by {
                if i > 0 {
                    assert(a.subrange(0, m)[i] == b[i]);
                    assert(a[i] == x[i] && b[i] == y[i]);
                }
            }
        }
        let k = text::pieces_are_of_a_beginning(p, SEP, m);
        text::pieces_determine_text(p.take(k), base, SEP);
        assert(k == base.len());
        if k == p.len() {
            assert(p.take(k) =~= p);
        }
    }
    if p == base {
        assert(a.subrange(0, a.len() as int) =~= a);
    } else if p.len() > base.len() && p.take(base.len() as int) == base && p[base.len() as int]
        == SEP {
        let rest = p.skip((base.len() + 1) as int);
        assert(p =~= base.push(SEP) + rest);
        text::split_between(base, SEP, rest);
        assert(a.subrange(0, b.len() as int) =~= b) by {
            assert forall|i: int| 0 <= i < b.len() implies a[i] == b[i] by {
                if i > 0 {
                    assert(x[i] == y[i]);
                }
            }
        }
    }
}

} // verus!

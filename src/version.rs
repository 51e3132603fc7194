//! Version identifiers: field splitting, ordering and collision detection.

use vstd::prelude::*;
use core::cmp::Ordering;
use crate::error::Error;

verus! {

/// A character that belongs to a field; every other character separates fields.
pub open spec fn is_field_char(c: char) -> bool {
    ('0' <= c && c <= '9') || ('a' <= c && c <= 'z') || ('A' <= c && c <= 'Z')
}

pub open spec fn is_digit(c: char) -> bool {
    '0' <= c && c <= '9'
}

/// A field is numeric when it consists of digits only.
pub open spec fn is_numeric(f: Seq<char>) -> bool {
    forall|i: int| 0 <= i < f.len() ==> is_digit(#[trigger] f[i])
}

/// The fields of a version string: its maximal runs of field characters, in order.
pub open spec fn fields(s: Seq<char>) -> Seq<Seq<char>>
    decreases s.len(),
{
    if s.len() == 0 {
        seq![]
    } else {
        let prev = fields(s.drop_last());
        let c = s.last();
        if !is_field_char(c) {
            prev
        } else if s.len() >= 2 && is_field_char(s[s.len() - 2]) {
            prev.drop_last().push(prev.last().push(c))
        } else {
            prev.push(seq![c])
        }
    }
}

/// Lexicographic comparison of character strings, by code point; a proper
/// prefix ranks below the longer string. The result is -1, 0 or 1.
pub open spec fn lex_cmp(a: Seq<char>, b: Seq<char>) -> int
    decreases a.len(),
{
    if a.len() == 0 {
        if b.len() == 0 { 0 } else { -1 }
    } else if b.len() == 0 {
        1
    } else if a[0] == b[0] {
        lex_cmp(a.drop_first(), b.drop_first())
    } else if a[0] < b[0] {
        -1
    } else {
        1
    }
}

/// A digit string without its leading zeros.
pub open spec fn strip_zeros(a: Seq<char>) -> Seq<char>
    decreases a.len(),
{
    if a.len() > 0 && a[0] == '0' {
        strip_zeros(a.drop_first())
    } else {
        a
    }
}

/// Comparison of two digit strings by the numbers they denote: without leading
/// zeros the longer string is the larger number, and strings of one length
/// compare digit by digit.
pub open spec fn num_cmp(a: Seq<char>, b: Seq<char>) -> int {
    let x = strip_zeros(a);
    let y = strip_zeros(b);
    if x.len() < y.len() {
        -1
    } else if x.len() > y.len() {
        1
    } else {
        lex_cmp(x, y)
    }
}

/// Comparison of two fields: numbers by value, text lexicographically, and a
/// numeric field above a textual one.
pub open spec fn field_cmp(a: Seq<char>, b: Seq<char>) -> int {
    if is_numeric(a) && is_numeric(b) {
        num_cmp(a, b)
    } else if is_numeric(a) {
        1
    } else if is_numeric(b) {
        -1
    } else {
        lex_cmp(a, b)
    }
}

/// Lexicographic comparison of field sequences; a missing field ranks below
/// every present one, so `1.0` is below `1.0.1`.
pub open spec fn fields_cmp(a: Seq<Seq<char>>, b: Seq<Seq<char>>) -> int
    decreases a.len(),
{
    if a.len() == 0 {
        if b.len() == 0 { 0 } else { -1 }
    } else if b.len() == 0 {
        1
    } else if field_cmp(a[0], b[0]) != 0 {
        field_cmp(a[0], b[0])
    } else {
        fields_cmp(a.drop_first(), b.drop_first())
    }
}

/// The order of two version strings, as -1, 0 or 1.
pub open spec fn version_cmp(a: Seq<char>, b: Seq<char>) -> int {
    fields_cmp(fields(a), fields(b))
}

/// Two distinct version strings whose fields are the same.
pub open spec fn collides(a: Seq<char>, b: Seq<char>) -> bool {
    a != b && fields(a) == fields(b)
}

pub open spec fn ordering_of(c: int) -> Ordering {
    if c < 0 {
        Ordering::Less
    } else if c == 0 {
        Ordering::Equal
    } else {
        Ordering::Greater
    }
}

/// The contents of a list of fields.
pub open spec fn views(v: Seq<Vec<char>>) -> Seq<Seq<char>> {
    Seq::new(v.len(), |i: int| v[i]@)
}

proof fn lemma_lex_refl(a: Seq<char>)
    ensures
        lex_cmp(a, a) == 0,
    decreases a.len(),
{
    if a.len() > 0 {
        lemma_lex_refl(a.drop_first());
    }
}

proof fn lemma_lex_antisym(a: Seq<char>, b: Seq<char>)
    ensures
        lex_cmp(a, b) == -lex_cmp(b, a),
        -1 <= lex_cmp(a, b) <= 1,
    decreases a.len(),
{
    if a.len() > 0 && b.len() > 0 && a[0] == b[0] {
        lemma_lex_antisym(a.drop_first(), b.drop_first());
    }
}

proof fn lemma_lex_trans(a: Seq<char>, b: Seq<char>, c: Seq<char>)
    requires
        lex_cmp(a, b) <= 0,
        lex_cmp(b, c) <= 0,
    ensures
        lex_cmp(a, c) <= 0,
    decreases a.len(),
{
    if a.len() > 0 && b.len() > 0 && c.len() > 0 && a[0] == b[0] && b[0] == c[0] {
        lemma_lex_trans(a.drop_first(), b.drop_first(), c.drop_first());
    }
}

proof fn lemma_field_antisym(a: Seq<char>, b: Seq<char>)
    ensures
        field_cmp(a, b) == -field_cmp(b, a),
        -1 <= field_cmp(a, b) <= 1,
        a == b ==> field_cmp(a, b) == 0,
{
    lemma_lex_antisym(a, b);
    lemma_lex_antisym(strip_zeros(a), strip_zeros(b));
    lemma_lex_refl(a);
    lemma_lex_refl(strip_zeros(a));
}

proof fn lemma_field_trans(a: Seq<char>, b: Seq<char>, c: Seq<char>)
    requires
        field_cmp(a, b) <= 0,
        field_cmp(b, c) <= 0,
    ensures
        field_cmp(a, c) <= 0,
{
    if is_numeric(a) && is_numeric(b) && is_numeric(c) {
        let (x, y, z) = (strip_zeros(a), strip_zeros(b), strip_zeros(c));
        if x.len() == y.len() && y.len() == z.len() {
            lemma_lex_trans(x, y, z);
        }
    } else if !is_numeric(a) && !is_numeric(b) && !is_numeric(c) {
        lemma_lex_trans(a, b, c);
    }
}

proof fn lemma_fields_refl(a: Seq<Seq<char>>)
    ensures
        fields_cmp(a, a) == 0,
    decreases a.len(),
{
    if a.len() > 0 {
        lemma_field_antisym(a[0], a[0]);
        lemma_fields_refl(a.drop_first());
    }
}

proof fn lemma_fields_antisym(a: Seq<Seq<char>>, b: Seq<Seq<char>>)
    ensures
        fields_cmp(a, b) == -fields_cmp(b, a),
        -1 <= fields_cmp(a, b) <= 1,
    decreases a.len(),
{
    if a.len() > 0 && b.len() > 0 {
        lemma_field_antisym(a[0], b[0]);
        lemma_fields_antisym(a.drop_first(), b.drop_first());
    }
}

proof fn lemma_fields_trans(a: Seq<Seq<char>>, b: Seq<Seq<char>>, c: Seq<Seq<char>>)
    requires
        fields_cmp(a, b) <= 0,
        fields_cmp(b, c) <= 0,
    ensures
        fields_cmp(a, c) <= 0,
    decreases a.len(),
{
    if a.len() > 0 && b.len() > 0 && c.len() > 0 {
        let (x, y, z) = (a[0], b[0], c[0]);
        lemma_field_antisym(x, y);
        lemma_field_antisym(y, z);
        lemma_field_antisym(x, z);
        lemma_field_trans(x, y, z);
        if field_cmp(x, z) == 0 {
            lemma_field_trans(z, x, y);
            lemma_field_trans(y, z, x);
            lemma_fields_trans(a.drop_first(), b.drop_first(), c.drop_first());
        }
    }
}

/// Every version string ranks equal to itself.
pub proof fn lemma_compare_reflexive(a: Seq<char>)
    ensures
        version_cmp(a, a) == 0,
{
    lemma_fields_refl(fields(a));
}

/// The order is total and antisymmetric: each pair ranks -1, 0 or 1, and
/// swapping the two versions negates the rank.
pub proof fn lemma_compare_antisymmetric(a: Seq<char>, b: Seq<char>)
    ensures
        -1 <= version_cmp(a, b) <= 1,
        version_cmp(a, b) == -version_cmp(b, a),
{
    lemma_fields_antisym(fields(a), fields(b));
}

/// The order is transitive: `a <= b` and `b <= c` give `a <= c`.
pub proof fn lemma_compare_transitive(a: Seq<char>, b: Seq<char>, c: Seq<char>)
    requires
        version_cmp(a, b) <= 0,
        version_cmp(b, c) <= 0,
    ensures
        version_cmp(a, c) <= 0,
{
    lemma_fields_trans(fields(a), fields(b), fields(c));
}

/// A version string never collides with itself.
pub proof fn lemma_no_self_collision(a: Seq<char>)
    ensures
        !collides(a, a),
{
}


/// The examples of collision and order that fetch and publish rely on: `1.0`
/// and `1-0` collide, `1.0` and `1.1` do not, and `0.9 < 1.0 < 1.2`.
pub proof fn lemma_version_examples()
    ensures
        collides("1.0"@, "1-0"@),
        !collides("1.0"@, "1.0"@),
        !collides("1.0"@, "1.1"@),
        version_cmp("0.9"@, "1.0"@) < 0,
        version_cmp("1.2"@, "1.0"@) > 0,
{
    reveal_strlit("1.0");
    reveal_strlit("1-0");
    reveal_strlit("1.1");
    reveal_strlit("0.9");
    reveal_strlit("1.2");
    lemma_fields_of_three('1', '.', '0');
    lemma_fields_of_three('1', '-', '0');
    lemma_fields_of_three('1', '.', '1');
    lemma_fields_of_three('0', '.', '9');
    lemma_fields_of_three('1', '.', '2');
    assert("1.0"@ =~= seq!['1', '.', '0']);
    assert("1-0"@ =~= seq!['1', '-', '0']);
    assert("1.1"@ =~= seq!['1', '.', '1']);
    assert("0.9"@ =~= seq!['0', '.', '9']);
    assert("1.2"@ =~= seq!['1', '.', '2']);
    assert(seq!['1'] != seq!['0']) by {
        assert(seq!['1'][0] != seq!['0'][0]);
    }
    assert(seq![seq!['1'], seq!['0']] != seq![seq!['1'], seq!['1']]) by {
        assert(seq![seq!['1'], seq!['0']][1] != seq![seq!['1'], seq!['1']][1]) by {
            assert(seq!['0'][0] != seq!['1'][0]);
        }
    }
    assert(seq!['1', '.', '0'] != seq!['1', '-', '0']) by {
        assert(seq!['1', '.', '0'][1] != seq!['1', '-', '0'][1]);
    }
    lemma_digit_field_cmp('0', '1');
    lemma_digit_field_cmp('2', '1');
    lemma_digit_field_cmp('1', '1');
    reveal_with_fuel(fields_cmp, 3);
}

/// The fields of a three-character string whose middle character separates.
proof fn lemma_fields_of_three(a: char, sep: char, b: char)
    requires
        is_field_char(a),
        !is_field_char(sep),
        is_field_char(b),
    ensures
        fields(seq![a, sep, b]) == seq![seq![a], seq![b]],
{
    let s = seq![a, sep, b];
    assert(s.drop_last() =~= seq![a, sep]);
    assert(seq![a, sep].drop_last() =~= seq![a]);
    assert(seq![a].drop_last() =~= Seq::<char>::empty());
    reveal_with_fuel(fields, 4);
    assert(fields(seq![a]) =~= seq![seq![a]]);
    assert(fields(seq![a, sep]) =~= seq![seq![a]]);
    assert(fields(s) =~= seq![seq![a], seq![b]]);
}

/// One-digit numeric fields compare as their digits.
proof fn lemma_digit_field_cmp(a: char, b: char)
    requires
        is_digit(a),
        is_digit(b),
        b != '0',
    ensures
        field_cmp(seq![a], seq![b]) == (if a < b { -1int } else if a == b { 0int } else { 1int }),
{
    let x = seq![a];
    let y = seq![b];
    assert(is_numeric(x));
    assert(is_numeric(y));
    assert(x.drop_first() =~= Seq::<char>::empty());
    assert(y.drop_first() =~= Seq::<char>::empty());
    assert(strip_zeros(y) == y);
    if a == '0' {
        assert(strip_zeros(Seq::<char>::empty()) == Seq::<char>::empty());
        assert(strip_zeros(x) == Seq::<char>::empty());
    } else {
        assert(strip_zeros(x) == x);
        reveal_with_fuel(lex_cmp, 2);
    }
}

/// A version identifier: a non-empty string and its fields.
#[derive(Debug)]
pub struct Version {
    raw: String,
    parts: Vec<Vec<char>>,
}

impl View for Version {
    type V = Seq<char>;

    closed spec fn view(&self) -> Seq<char> {
        self.raw@
    }
}

impl Version {
    #[verifier::type_invariant]
    spec fn inv(self) -> bool {
        self.raw@.len() > 0 && views(self.parts@) == fields(self.raw@)
    }

    /// Parses a version string; only the empty string is refused.
    pub fn parse(raw: &str) -> (r: Result<Version, Error>)
        ensures
            raw@.len() > 0 <==> r.is_ok(),
            r matches Ok(v) ==> v@ == raw@,
            r matches Err(e) ==> e == Error::MalformedVersion,
    {
        if raw.unicode_len() == 0 {
            return Err(Error::MalformedVersion);
        }
        let parts = split_fields(raw);
        Ok(Version { raw: String::from_str(raw), parts })
    }

    /// The version string as given.
    pub fn as_str(&self) -> (r: &str)
        ensures
            r@ == self@,
            r@.len() > 0,
    {
        proof {
            use_type_invariant(self);
        }
        self.raw.as_str()
    }

    /// Orders two versions by their fields.
    pub fn compare(&self, other: &Version) -> (r: Ordering)
        ensures
            r == ordering_of(version_cmp(self@, other@)),
    {
        proof {
            use_type_invariant(self);
            use_type_invariant(other);
        }
        let c = compare_fields(&self.parts, &other.parts);
        if c < 0 {
            Ordering::Less
        } else if c == 0 {
            Ordering::Equal
        } else {
            Ordering::Greater
        }
    }

    /// Whether two distinct version strings differ only in their separators.
    pub fn collides_with(&self, other: &Version) -> (r: bool)
        ensures
            r == collides(self@, other@),
    {
        proof {
            use_type_invariant(self);
            use_type_invariant(other);
        }
        let same_raw = str_eq(self.raw.as_str(), other.raw.as_str());
        if same_raw {
            false
        } else {
            fields_eq(&self.parts, &other.parts)
        }
    }

    /// Whether two versions are the same string.
    pub fn same_as(&self, other: &Version) -> (r: bool)
        ensures
            r == (self@ == other@),
    {
        str_eq(self.raw.as_str(), other.raw.as_str())
    }

    pub fn clone(&self) -> (r: Version)
        ensures
            r@ == self@,
    {
        proof {
            use_type_invariant(self);
        }
        Version { raw: self.raw.clone(), parts: clone_fields(&self.parts) }
    }
}

fn is_field_char_exec(c: char) -> (r: bool)
    ensures
        r == is_field_char(c),
{
    ('0' <= c && c <= '9') || ('a' <= c && c <= 'z') || ('A' <= c && c <= 'Z')
}

/// Splits a string into its fields.
fn split_fields(s: &str) -> (r: Vec<Vec<char>>)
    ensures
        views(r@) == fields(s@),
{
    let n = s.unicode_len();
    let mut parts: Vec<Vec<char>> = Vec::new();
    let mut cur: Vec<char> = Vec::new();
    let mut i: usize = 0;
    while i < n
        invariant
            n == s@.len(),
            i <= n,
            cur@.len() > 0 <==> (i > 0 && is_field_char(s@[i - 1])),
            fields(s@.subrange(0, i as int)) == (if cur@.len() > 0 {
                views(parts@).push(cur@)
            } else {
                views(parts@)
            }),
        decreases n - i,
    {
        let c = s.get_char(i);
        let ghost prefix = s@.subrange(0, i as int);
        let ghost next = s@.subrange(0, i + 1);
        proof {
            assert(next.drop_last() =~= prefix);
            assert(next.last() == c);
            if i > 0 {
                assert(next[next.len() - 2] == s@[i - 1]);
            }
        }
        if is_field_char_exec(c) {
            let ghost old_cur = cur@;
            cur.push(c);
            proof {
                if old_cur.len() > 0 {
                    let pv = views(parts@);
                    assert(fields(next) =~= pv.push(old_cur).drop_last().push(old_cur.push(c)));
                    assert(pv.push(old_cur).drop_last() =~= pv);
                } else {
                    assert(cur@ =~= seq![c]);
                }
            }
        } else if cur.len() > 0 {
            let ghost pv = views(parts@);
            let ghost cv = cur@;
            parts.push(cur);
            cur = Vec::new();
            proof {
                assert(views(parts@) =~= pv.push(cv));
            }
        }
        i += 1;
    }
    if cur.len() > 0 {
        let ghost pv = views(parts@);
        let ghost cv = cur@;
        parts.push(cur);
        proof {
            assert(views(parts@) =~= pv.push(cv));
        }
    }
    proof {
        assert(s@.subrange(0, n as int) =~= s@);
    }
    parts
}

fn clone_fields(a: &Vec<Vec<char>>) -> (r: Vec<Vec<char>>)
    ensures
        views(r@) == views(a@),
{
    let mut r: Vec<Vec<char>> = Vec::new();
    let mut i: usize = 0;
    while i < a.len()
        invariant
            i <= a.len(),
            views(r@) =~= views(a@).subrange(0, i as int),
        decreases a.len() - i,
    {
        let mut f: Vec<char> = Vec::new();
        let mut j: usize = 0;
        let src = &a[i];
        while j < src.len()
            invariant
                i < a.len(),
                src@ == a@[i as int]@,
                j <= src.len(),
                f@ =~= src@.subrange(0, j as int),
            decreases src.len() - j,
        {
            f.push(src[j]);
            j += 1;
        }
        let ghost rv = views(r@);
        proof {
            assert(f@ =~= src@);
        }
        r.push(f);
        proof {
            assert(views(r@) =~= rv.push(src@));
            assert(views(a@).subrange(0, i + 1) =~= views(a@).subrange(0, i as int).push(src@));
        }
        i += 1;
    }
    proof {
        assert(views(a@).subrange(0, a.len() as int) =~= views(a@));
    }
    r
}

pub(crate) fn str_eq(a: &str, b: &str) -> (r: bool)
    ensures
        r == (a@ == b@),
{
    let n = a.unicode_len();
    let m = b.unicode_len();
    if n != m {
        return false;
    }
    let mut i: usize = 0;
    while i < n
        invariant
            n == a@.len(),
            m == b@.len(),
            n == m,
            i <= n,
            a@.subrange(0, i as int) == b@.subrange(0, i as int),
        decreases n - i,
    {
        if a.get_char(i) != b.get_char(i) {
            return false;
        }
        proof {
            assert(a@.subrange(0, i + 1) =~= a@.subrange(0, i as int).push(a@[i as int]));
            assert(b@.subrange(0, i + 1) =~= b@.subrange(0, i as int).push(b@[i as int]));
        }
        i += 1;
    }
    proof {
        assert(a@ =~= a@.subrange(0, n as int));
        assert(b@ =~= b@.subrange(0, n as int));
    }
    true
}

fn chars_eq(a: &Vec<char>, b: &Vec<char>) -> (r: bool)
    ensures
        r == (a@ == b@),
{
    if a.len() != b.len() {
        return false;
    }
    let mut i: usize = 0;
    while i < a.len()
        invariant
            a.len() == b.len(),
            i <= a.len(),
            forall|k: int| 0 <= k < i ==> a@[k] == b@[k],
        decreases a.len() - i,
    {
        if a[i] != b[i] {
            return false;
        }
        i += 1;
    }
    proof {
        assert(a@ =~= b@);
    }
    true
}

fn fields_eq(a: &Vec<Vec<char>>, b: &Vec<Vec<char>>) -> (r: bool)
    ensures
        r == (views(a@) == views(b@)),
{
    if a.len() != b.len() {
        proof {
            assert(views(a@).len() != views(b@).len());
        }
        return false;
    }
    let mut i: usize = 0;
    while i < a.len()
        invariant
            a.len() == b.len(),
            i <= a.len(),
            forall|k: int| 0 <= k < i ==> views(a@)[k] == views(b@)[k],
        decreases a.len() - i,
    {
        if !chars_eq(&a[i], &b[i]) {
            proof {
                assert(views(a@)[i as int] != views(b@)[i as int]);
            }
            return false;
        }
        i += 1;
    }
    proof {
        assert(views(a@) =~= views(b@));
    }
    true
}

/// Lexicographic comparison of `a[i..]` and `b[j..]`.
fn compare_chars_from(a: &Vec<char>, i: usize, b: &Vec<char>, j: usize) -> (r: i8)
    requires
        i <= a.len(),
        j <= b.len(),
    ensures
        r as int == lex_cmp(a@.subrange(i as int, a@.len() as int), b@.subrange(j as int, b@.len() as int)),
{
    let mut k: usize = 0;
    while i + k < a.len() && j + k < b.len() && a[i + k] == b[j + k]
        invariant
            i + k <= a.len(),
            j + k <= b.len(),
            lex_cmp(a@.subrange(i as int, a@.len() as int), b@.subrange(j as int, b@.len() as int))
                == lex_cmp(a@.subrange(i + k, a@.len() as int), b@.subrange(j + k, b@.len() as int)),
        decreases a.len() - (i + k),
    {
        proof {
            let x = a@.subrange(i + k, a@.len() as int);
            let y = b@.subrange(j + k, b@.len() as int);
            assert(x.drop_first() =~= a@.subrange(i + k + 1, a@.len() as int));
            assert(y.drop_first() =~= b@.subrange(j + k + 1, b@.len() as int));
        }
        k += 1;
    }
    if i + k == a.len() {
        if j + k == b.len() { 0 } else { -1 }
    } else if j + k == b.len() {
        1
    } else if a[i + k] < b[j + k] {
        -1
    } else {
        1
    }
}

proof fn lemma_strip_zeros_skip(a: Seq<char>, k: int)
    requires
        0 <= k <= a.len(),
        forall|t: int| 0 <= t < k ==> a[t] == '0',
    ensures
        strip_zeros(a) == strip_zeros(a.subrange(k, a.len() as int)),
    decreases k,
{
    if k > 0 {
        assert(a.drop_first().subrange(k - 1, a.drop_first().len() as int) =~= a.subrange(k, a.len() as int));
        lemma_strip_zeros_skip(a.drop_first(), k - 1);
    } else {
        assert(a.subrange(0, a.len() as int) =~= a);
    }
}

/// The index of the first non-zero digit.
fn skip_zeros(a: &Vec<char>) -> (r: usize)
    ensures
        r <= a.len(),
        strip_zeros(a@) == a@.subrange(r as int, a@.len() as int),
{
    let mut k: usize = 0;
    while k < a.len() && a[k] == '0'
        invariant
            k <= a.len(),
            forall|t: int| 0 <= t < k ==> a@[t] == '0',
        decreases a.len() - k,
    {
        k += 1;
    }
    proof {
        lemma_strip_zeros_skip(a@, k as int);
        let rest = a@.subrange(k as int, a@.len() as int);
        assert(rest.len() == 0 || rest[0] != '0');
    }
    k
}

fn is_numeric_exec(a: &Vec<char>) -> (r: bool)
    ensures
        r == is_numeric(a@),
{
    let mut i: usize = 0;
    while i < a.len()
        invariant
            i <= a.len(),
            forall|k: int| 0 <= k < i ==> is_digit(#[trigger] a@[k]),
        decreases a.len() - i,
    {
        if !('0' <= a[i] && a[i] <= '9') {
            return false;
        }
        i += 1;
    }
    true
}

fn compare_field(a: &Vec<char>, b: &Vec<char>) -> (r: i8)
    ensures
        r as int == field_cmp(a@, b@),
{
    let na = is_numeric_exec(a);
    let nb = is_numeric_exec(b);
    if na && nb {
        let i = skip_zeros(a);
        let j = skip_zeros(b);
        if a.len() - i < b.len() - j {
            -1
        } else if a.len() - i > b.len() - j {
            1
        } else {
            compare_chars_from(a, i, b, j)
        }
    } else if na {
        1
    } else if nb {
        -1
    } else {
        proof {
            assert(a@.subrange(0, a@.len() as int) =~= a@);
            assert(b@.subrange(0, b@.len() as int) =~= b@);
        }
        compare_chars_from(a, 0, b, 0)
    }
}

fn compare_fields(a: &Vec<Vec<char>>, b: &Vec<Vec<char>>) -> (r: i8)
    ensures
        r as int == fields_cmp(views(a@), views(b@)),
{
    let ghost da = views(a@);
    let ghost db = views(b@);
    proof {
        assert(da.subrange(0, da.len() as int) =~= da);
        assert(db.subrange(0, db.len() as int) =~= db);
    }
    let mut k: usize = 0;
    while k < a.len() && k < b.len()
        invariant
            da == views(a@),
            db == views(b@),
            k <= a.len(),
            k <= b.len(),
            fields_cmp(da, db) == fields_cmp(da.subrange(k as int, da.len() as int), db.subrange(k as int, db.len() as int)),
        decreases a.len() - k,
    {
        let c = compare_field(&a[k], &b[k]);
        let ghost x = da.subrange(k as int, da.len() as int);
        let ghost y = db.subrange(k as int, db.len() as int);
        proof {
            assert(x[0] == a[k as int]@);
            assert(y[0] == b[k as int]@);
        }
        if c != 0 {
            return c;
        }
        proof {
            assert(x.drop_first() =~= da.subrange(k + 1, da.len() as int));
            assert(y.drop_first() =~= db.subrange(k + 1, db.len() as int));
        }
        k += 1;
    }
    proof {
        assert(da.subrange(k as int, da.len() as int).len() == da.len() - k);
    }
    if k == a.len() {
        if k == b.len() { 0 } else { -1 }
    } else {
        1
    }
}

} // verus!

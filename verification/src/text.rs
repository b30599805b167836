//! Texts: comparison, prefixes, path segments and decimal digits.

use vstd::prelude::*;
use vstd::string::*;
use vstd::utf8::*;

verus! {

/// Whether two strings hold the same characters.
pub fn same_text(a: &str, b: &str) -> (r: bool)
    ensures
        r == (a@ == b@),
{
    let x = a.as_bytes();
    let y = b.as_bytes();
    proof {
        encode_utf8_decode_utf8(a@);
        encode_utf8_decode_utf8(b@);
    }
    if x.len() != y.len() {
        return false;
    }
    let mut i: usize = 0;
    while i < x.len()
        invariant
            x@ == encode_utf8(a@),
            y@ == encode_utf8(b@),
            x@.len() == y@.len(),
            i <= x@.len(),
            forall|k: int| 0 <= k < i ==> x@[k] == y@[k],
        decreases x@.len() - i,
    {
        if x[i] != y[i] {
            return false;
        }
        i += 1;
    }
    assert(x@ =~= y@);
    true
}

/// `p` stands at the start of `s`.
pub open spec fn starts_with(s: Seq<char>, p: Seq<char>) -> bool {
    p.len() <= s.len() && s.subrange(0, p.len() as int) == p
}

/// What follows the first `n` characters of `s`.
pub open spec fn after(s: Seq<char>, n: nat) -> Seq<char> {
    s.subrange(n as int, s.len() as int)
}

/// A text that starts with `p` is `p` and what follows.
pub proof fn lemma_starts_with(s: Seq<char>, p: Seq<char>)
    requires
        starts_with(s, p),
    ensures
        s == p + after(s, p.len()),
{
    assert(s =~= p + after(s, p.len()));
}

/// `p` and what follows starts with `p`.
pub proof fn lemma_starts_with_concat(p: Seq<char>, rest: Seq<char>)
    ensures
        starts_with(p + rest, p),
        after(p + rest, p.len()) == rest,
{
    assert((p + rest).subrange(0, p.len() as int) =~= p);
    assert(after(p + rest, p.len()) =~= rest);
}

/// What follows a common start decides whether two texts are the same.
pub proof fn lemma_concat_cancel(p: Seq<char>, s: Seq<char>, t: Seq<char>)
    requires
        p + s == p + t,
    ensures
        s == t,
{
    lemma_starts_with_concat(p, s);
    lemma_starts_with_concat(p, t);
}

/// The text holds no slash.
pub open spec fn has_no_slash(s: Seq<char>) -> bool {
    forall|i: int| 0 <= i < s.len() ==> s[i] != '/'
}

/// Two paths that are the same have the same first segment and the same
/// rest.
pub proof fn lemma_split_at_slash(a: Seq<char>, x: Seq<char>, b: Seq<char>, y: Seq<char>)
    requires
        has_no_slash(a),
        has_no_slash(b),
        a + seq!['/'] + x == b + seq!['/'] + y,
    ensures
        a == b,
        x == y,
{
    let l = a + seq!['/'] + x;
    let r = b + seq!['/'] + y;
    assert(l[a.len() as int] == '/');
    assert(r[b.len() as int] == '/');
    if a.len() < b.len() {
        assert(r[a.len() as int] == b[a.len() as int]);
    }
    if b.len() < a.len() {
        assert(l[b.len() as int] == a[b.len() as int]);
    }
    assert(a =~= b) by {
        assert forall|i: int| 0 <= i < a.len() implies a[i] == b[i] by {
            assert(l[i] == a[i]);
            assert(r[i] == b[i]);
        }
    }
    assert(a + seq!['/'] + x =~= (a + seq!['/']) + x);
    assert(b + seq!['/'] + y =~= (a + seq!['/']) + y);
    lemma_concat_cancel(a + seq!['/'], x, y);
}

/// A text without a slash is no path of two segments.
pub proof fn lemma_no_slash_is_no_path(a: Seq<char>, b: Seq<char>, y: Seq<char>)
    requires
        has_no_slash(a),
    ensures
        a != b + seq!['/'] + y,
{
    let r = b + seq!['/'] + y;
    assert(r[b.len() as int] == '/');
}

/// The rest of `s` behind the prefix `p`, if `s` starts with `p`.
pub fn strip_prefix(s: &str, p: &str) -> (r: Option<String>)
    ensures
        match r {
            Some(rest) => starts_with(s@, p@) && rest@ == after(s@, p@.len()),
            None => !starts_with(s@, p@),
        },
{
    let n = s.unicode_len();
    let m = p.unicode_len();
    if m > n {
        return None;
    }
    if same_text(s.substring_char(0, m), p) {
        Some(String::from_str(s.substring_char(m, n)))
    } else {
        None
    }
}

/// `std::str::from_utf8`: the bytes as text where they are valid UTF-8, and
/// nothing where they are not.
#[verifier::external_body]
fn utf8_text(bytes: &[u8]) -> (r: Option<&str>)
    ensures
        match r {
            Some(s) => valid_utf8(bytes@) && s@ == decode_utf8(bytes@),
            None => !valid_utf8(bytes@),
        },
{
    std::str::from_utf8(bytes).ok()
}

/// The text that the bytes encode, where they encode one.
pub fn decode_text(bytes: &[u8]) -> (r: Option<String>)
    ensures
        match r {
            Some(s) => valid_utf8(bytes@) && s@ == decode_utf8(bytes@),
            None => !valid_utf8(bytes@),
        },
{
    match utf8_text(bytes) {
        Some(s) => Some(String::from_str(s)),
        None => None,
    }
}

/// `a` followed by `b`.
pub fn join(a: &str, b: &str) -> (r: String)
    ensures
        r@ == a@ + b@,
{
    String::from_str(a).concat(b)
}

/// A name that stands for a directory in an archive: one that ends in a
/// slash or a backslash.
pub open spec fn is_directory_name(name: Seq<char>) -> bool {
    name.len() > 0 && (name.last() == '/' || name.last() == '\\')
}

/// Where the last segment of a path begins: behind its last slash, or at 0
/// where it has none.
pub open spec fn segment_start(name: Seq<char>) -> int
    decreases name.len(),
{
    if name.len() == 0 {
        0
    } else if name.last() == '/' {
        name.len() as int
    } else {
        segment_start(name.drop_last())
    }
}

/// The last segment of a path: what follows its last slash.
pub open spec fn trailing_segment(name: Seq<char>) -> Seq<char> {
    name.subrange(segment_start(name), name.len() as int)
}

/// The last segment holds no slash, and stands at the start or behind one.
pub proof fn lemma_segment_start(name: Seq<char>)
    ensures
        0 <= segment_start(name) <= name.len(),
        segment_start(name) > 0 ==> name[segment_start(name) - 1] == '/',
        forall|i: int| segment_start(name) <= i < name.len() ==> name[i] != '/',
    decreases name.len(),
{
    if name.len() > 0 && name.last() != '/' {
        let init = name.drop_last();
        lemma_segment_start(init);
        assert(forall|i: int| 0 <= i < init.len() ==> init[i] == name[i]);
    }
}

/// The last segment of a file's path is the file's name: what follows a
/// directory that ends in a slash, where that holds no slash itself.
pub proof fn lemma_segment_of_path(dir: Seq<char>, name: Seq<char>)
    requires
        dir.len() > 0,
        dir.last() == '/',
        has_no_slash(name),
    ensures
        segment_start(dir + name) == dir.len(),
        trailing_segment(dir + name) == name,
    decreases name.len(),
{
    if name.len() == 0 {
        assert(dir + name =~= dir);
    } else {
        let init = name.drop_last();
        assert((dir + name).drop_last() =~= dir + init);
        assert((dir + name).last() == name[name.len() - 1]);
        lemma_segment_of_path(dir, init);
    }
    assert(trailing_segment(dir + name) =~= name);
}

/// Whether a name stands for a directory, and its last segment.
pub fn split_name(name: &str) -> (r: (bool, String))
    ensures
        r.0 == is_directory_name(name@),
        r.1@ == trailing_segment(name@),
{
    let total = name.unicode_len();
    let mut n: usize = 0;
    let mut start: usize = 0;
    let mut directory = false;
    for c in it: name.chars()
        invariant
            it.seq() == name@,
            total == name@.len(),
            n == it.index(),
            n <= total,
            start == segment_start(name@.take(n as int)),
            directory == is_directory_name(name@.take(n as int)),
    {
        assert(name@.take(n + 1).drop_last() =~= name@.take(n as int));
        n += 1;
        if c == '/' {
            start = n;
        }
        directory = c == '/' || c == '\\';
    }
    assert(name@.take(n as int) =~= name@);
    proof {
        lemma_segment_start(name@);
    }
    (directory, String::from_str(name.substring_char(start, total)))
}

/// The digit that stands for a number below ten.
pub open spec fn digit(n: nat) -> char {
    if n == 0 {
        '0'
    } else if n == 1 {
        '1'
    } else if n == 2 {
        '2'
    } else if n == 3 {
        '3'
    } else if n == 4 {
        '4'
    } else if n == 5 {
        '5'
    } else if n == 6 {
        '6'
    } else if n == 7 {
        '7'
    } else if n == 8 {
        '8'
    } else {
        '9'
    }
}

/// A number in decimal digits, without leading zeros.
pub open spec fn decimal(n: nat) -> Seq<char>
    decreases n,
{
    if n < 10 {
        seq![digit(n)]
    } else {
        decimal(n / 10).push(digit(n % 10))
    }
}

fn digit_text(d: usize) -> (r: &'static str)
    requires
        d < 10,
    ensures
        r@ == seq![digit(d as nat)],
{
    proof {
        reveal_strlit("0");
        reveal_strlit("1");
        reveal_strlit("2");
        reveal_strlit("3");
        reveal_strlit("4");
        reveal_strlit("5");
        reveal_strlit("6");
        reveal_strlit("7");
        reveal_strlit("8");
        reveal_strlit("9");
    }
    let r = if d == 0 {
        "0"
    } else if d == 1 {
        "1"
    } else if d == 2 {
        "2"
    } else if d == 3 {
        "3"
    } else if d == 4 {
        "4"
    } else if d == 5 {
        "5"
    } else if d == 6 {
        "6"
    } else if d == 7 {
        "7"
    } else if d == 8 {
        "8"
    } else {
        "9"
    };
    assert(r@ =~= seq![digit(d as nat)]);
    r
}

/// A number in decimal digits.
pub fn to_decimal(n: usize) -> (r: String)
    ensures
        r@ == decimal(n as nat),
    decreases n,
{
    if n < 10 {
        String::from_str(digit_text(n))
    } else {
        let r = to_decimal(n / 10).concat(digit_text(n % 10));
        assert(r@ =~= decimal((n / 10) as nat).push(digit((n % 10) as nat)));
        r
    }
}

} // verus!

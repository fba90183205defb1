use vstd::prelude::*;
use crate::model::PackageIdentity;

verus! {

pub open spec fn code(c: char) -> int {
    c as u32 as int
}

/// Characters kept as they are in a cache directory name: ASCII letters and
/// digits, `_`, `.`, `+`, and everything beyond ASCII.
pub open spec fn is_plain(c: char) -> bool {
    ||| ('a' <= c && c <= 'z')
    ||| ('A' <= c && c <= 'Z')
    ||| ('0' <= c && c <= '9')
    ||| c == '_'
    ||| c == '.'
    ||| c == '+'
    ||| code(c) >= 128
}

/// The lower-case hexadecimal digit for `v`, for `v < 16`.
pub open spec fn hex_digit(v: int) -> char {
    if v < 10 {
        ((48 + v) as u8) as char
    } else {
        ((87 + v) as u8) as char
    }
}

/// How one character is written: itself where it is plain, else `%` and the
/// two hex digits of its code.
pub open spec fn escape_char(c: char) -> Seq<char> {
    if is_plain(c) {
        seq![c]
    } else {
        seq!['%', hex_digit(code(c) / 16), hex_digit(code(c) % 16)]
    }
}

pub open spec fn escape(s: Seq<char>) -> Seq<char>
    decreases s.len(),
{
    if s.len() == 0 {
        seq![]
    } else {
        escape_char(s[0]) + escape(s.drop_first())
    }
}

/// The directory (and file stem) of a package's cache: the escaped name and
/// the escaped version, joined by `-`.
pub open spec fn cache_dir_spec(id: (Seq<char>, Seq<char>)) -> Seq<char> {
    escape(id.0) + seq!['-'] + escape(id.1)
}

proof fn lemma_hex_digit(v: int)
    requires
        0 <= v < 16,
    ensures
        hex_digit(v) != '-',
        hex_digit(v) != '%',
        forall|w: int| 0 <= w < 16 && hex_digit(w) == hex_digit(v) ==> w == v,
{
}

proof fn lemma_escape_char(c: char)
    ensures
        escape_char(c).len() > 0,
        !escape_char(c).contains('-'),
        escape_char(c)[0] == '%' <==> !is_plain(c),
{
    if !is_plain(c) {
        lemma_hex_digit(code(c) / 16);
        lemma_hex_digit(code(c) % 16);
        assert(!escape_char(c).contains('-')) by {
            if escape_char(c).contains('-') {
                let k = choose|k: int| 0 <= k < 3 && escape_char(c)[k] == '-';
                assert(k == 0 || k == 1 || k == 2);
            }
        }
    }
}

proof fn lemma_escape_no_dash(s: Seq<char>)
    ensures
        !escape(s).contains('-'),
        escape(s).len() == 0 <==> s.len() == 0,
    decreases s.len(),
{
    if s.len() > 0 {
        lemma_escape_char(s[0]);
        lemma_escape_no_dash(s.drop_first());
        let a = escape_char(s[0]);
        let b = escape(s.drop_first());
        assert(!(a + b).contains('-')) by {
            if (a + b).contains('-') {
                let k = choose|k: int| 0 <= k < (a + b).len() && (a + b)[k] == '-';
                if k < a.len() {
                    assert(a[k] == '-');
                } else {
                    assert(b[k - a.len()] == '-');
                }
            }
        }
    }
}

proof fn lemma_escape_char_injective(c: char, d: char)
    requires
        escape_char(c) == escape_char(d),
    ensures
        c == d,
{
    lemma_escape_char(c);
    lemma_escape_char(d);
    if !is_plain(c) {
        lemma_hex_digit(code(c) / 16);
        lemma_hex_digit(code(c) % 16);
        assert(escape_char(c)[1] == escape_char(d)[1]);
        assert(escape_char(c)[2] == escape_char(d)[2]);
        assert(code(c) == code(d));
    } else {
        assert(escape_char(c)[0] == escape_char(d)[0]);
    }
}

/// Escaping loses nothing: different strings escape differently.
pub proof fn lemma_escape_injective(s: Seq<char>, t: Seq<char>)
    requires
        escape(s) == escape(t),
    ensures
        s == t,
    decreases s.len(),
{
    lemma_escape_no_dash(s);
    lemma_escape_no_dash(t);
    if s.len() > 0 {
        let a = escape_char(s[0]);
        let b = escape_char(t[0]);
        lemma_escape_char(s[0]);
        lemma_escape_char(t[0]);
        assert(escape(s)[0] == a[0]);
        assert(escape(t)[0] == b[0]);
        assert(a.len() == b.len());
        assert(a =~= escape(s).take(a.len() as int));
        assert(b =~= escape(t).take(b.len() as int));
        lemma_escape_char_injective(s[0], t[0]);
        assert(escape(s.drop_first()) =~= escape(s).skip(a.len() as int));
        assert(escape(t.drop_first()) =~= escape(t).skip(b.len() as int));
        lemma_escape_injective(s.drop_first(), t.drop_first());
        assert(s =~= seq![s[0]] + s.drop_first());
        assert(t =~= seq![t[0]] + t.drop_first());
    }
}

/// Cache locations never collide: two different package identities, whatever
/// characters their names and versions hold, get different cache directories.
pub proof fn lemma_cache_dir_injective(a: (Seq<char>, Seq<char>), b: (Seq<char>, Seq<char>))
    requires
        a != b,
    ensures
        cache_dir_spec(a) != cache_dir_spec(b),
{
    if cache_dir_spec(a) == cache_dir_spec(b) {
        let x = cache_dir_spec(a);
        lemma_escape_no_dash(a.0);
        lemma_escape_no_dash(b.0);
        let la = escape(a.0).len() as int;
        let lb = escape(b.0).len() as int;
        assert(x[la] == '-');
        assert(x[lb] == '-');
        if la < lb {
            assert(escape(b.0)[la] == '-');
            assert(escape(b.0).contains('-'));
        } else if lb < la {
            assert(escape(a.0)[lb] == '-');
            assert(escape(a.0).contains('-'));
        } else {
            assert(escape(a.0) =~= x.take(la));
            assert(escape(b.0) =~= x.take(lb));
            assert(escape(a.1) =~= x.skip(la + 1));
            assert(escape(b.1) =~= x.skip(lb + 1));
            lemma_escape_injective(a.0, b.0);
            lemma_escape_injective(a.1, b.1);
        }
    }
}

proof fn lemma_escape_push(s: Seq<char>, c: char)
    ensures
        escape(s.push(c)) == escape(s) + escape_char(c),
    decreases s.len(),
{
    if s.len() == 0 {
        assert(s.push(c).drop_first() =~= Seq::<char>::empty());
        assert(s.push(c)[0] == c);
        assert(escape(s.push(c).drop_first()) == Seq::<char>::empty());
        assert(escape(s) == Seq::<char>::empty());
        assert(escape(s.push(c)) =~= escape(s) + escape_char(c));
    } else {
        assert(s.push(c).drop_first() =~= s.drop_first().push(c));
        lemma_escape_push(s.drop_first(), c);
        assert(escape(s.push(c)) =~= escape(s) + escape_char(c));
    }
}

/// Relies on std's `String::push`, which appends one character.
#[verifier::external_body]
fn push_char(s: &mut String, c: char)
    ensures
        final(s)@ == old(s)@.push(c),
{
    s.push(c)
}

fn hex_digit_of(v: u32) -> (c: char)
    requires
        v < 16,
    ensures
        c == hex_digit(v as int),
{
    if v < 10 {
        ((48 + v) as u8) as char
    } else {
        ((87 + v) as u8) as char
    }
}

fn plain(c: char) -> (r: bool)
    ensures
        r == is_plain(c),
{
    ('a' <= c && c <= 'z') || ('A' <= c && c <= 'Z') || ('0' <= c && c <= '9') || c == '_'
        || c == '.' || c == '+' || (c as u32) >= 128
}

/// Appends the escaped form of `s` to `out`.
fn push_escaped(out: &mut String, s: &str)
    ensures
        final(out)@ == old(out)@ + escape(s@),
{
    let n = s.unicode_len();
    let mut i: usize = 0;
    assert(s@.take(0) =~= seq![]);
    while i < n
        invariant
            n == s@.len(),
            i <= n,
            out@ == old(out)@ + escape(s@.take(i as int)),
        decreases n - i,
    {
        let c = s.get_char(i);
        let ghost before = out@;
        if plain(c) {
            push_char(out, c);
        } else {
            let v = c as u32;
            push_char(out, '%');
            push_char(out, hex_digit_of(v / 16));
            push_char(out, hex_digit_of(v % 16));
        }
        assert(out@ =~= before + escape_char(c));
        assert(s@.take(i + 1) =~= s@.take(i as int).push(c));
        proof {
            lemma_escape_push(s@.take(i as int), c);
        }
        i = i + 1;
    }
    assert(s@.take(n as int) =~= s@);
}

/// The name of the directory that holds a package's cache (and the stem of
/// the cache file in it).
pub fn cache_dir_name(id: &PackageIdentity) -> (r: String)
    ensures
        r@ == cache_dir_spec(id@),
{
    let mut out = String::new();
    push_escaped(&mut out, id.name.as_str());
    push_char(&mut out, '-');
    push_escaped(&mut out, id.version.as_str());
    assert(out@ =~= cache_dir_spec(id@));
    out
}

/// The name of a package's cache file: its directory name with `.json`.
pub fn cache_file_name(id: &PackageIdentity) -> (r: String)
    ensures
        r@ == cache_dir_spec(id@) + ".json"@,
{
    let dir = cache_dir_name(id);
    dir.concat(".json")
}

proof fn lemma_escape_front(y: Seq<char>)
    requires
        y.len() > 0,
    ensures
        escape(y).len() >= escape_char(y[0]).len(),
        escape(y)[0] == '%' <==> !is_plain(y[0]),
        is_plain(y[0]) ==> escape(y)[0] == y[0] && escape(y.drop_first()) == escape(y).skip(1),
        !is_plain(y[0]) ==> {
            &&& escape(y).len() >= 3
            &&& escape(y)[1] == hex_digit(code(y[0]) / 16)
            &&& escape(y)[2] == hex_digit(code(y[0]) % 16)
            &&& escape(y.drop_first()) == escape(y).skip(3)
        },
{
    lemma_escape_char(y[0]);
    let a = escape_char(y[0]);
    assert(escape(y.drop_first()) =~= escape(y).skip(a.len() as int));
}

fn hex_value(c: char) -> (r: Option<u32>)
    ensures
        r matches Some(v) ==> v < 16 && hex_digit(v as int) == c,
        r is None ==> forall|v: int| 0 <= v < 16 ==> hex_digit(v) != c,
{
    if '0' <= c && c <= '9' {
        Some(c as u32 - 48)
    } else if 'a' <= c && c <= 'f' {
        Some(c as u32 - 87)
    } else {
        None
    }
}

proof fn lemma_code_injective(a: char, b: char)
    requires
        code(a) == code(b),
    ensures
        a == b,
{
}

/// What the escaped form of `y`, found at position `k` of `t`, shows of `y`'s
/// first character.
proof fn lemma_next_token(t: Seq<char>, k: int, y: Seq<char>)
    requires
        0 <= k < t.len(),
        escape(y) == t.skip(k),
    ensures
        y.len() > 0,
        t[k] == '%' <==> !is_plain(y[0]),
        is_plain(y[0]) ==> t[k] == y[0] && escape(y.drop_first()) == t.skip(k + 1),
        !is_plain(y[0]) ==> {
            &&& k + 3 <= t.len()
            &&& code(y[0]) < 128
            &&& t[k + 1] == hex_digit(code(y[0]) / 16)
            &&& t[k + 2] == hex_digit(code(y[0]) % 16)
            &&& escape(y.drop_first()) == t.skip(k + 3)
        },
{
    lemma_escape_no_dash(y);
    lemma_escape_front(y);
    assert(escape(y)[0] == t[k]);
    if is_plain(y[0]) {
        assert(escape(y).skip(1) =~= t.skip(k + 1));
    } else {
        assert(escape(y)[1] == t[k + 1]);
        assert(escape(y)[2] == t[k + 2]);
        assert(escape(y).skip(3) =~= t.skip(k + 3));
    }
}

proof fn lemma_split_next(x: Seq<char>, n: int)
    requires
        0 <= n < x.len(),
    ensures
        x.take(n + 1) == x.take(n).push(x.skip(n)[0]),
        x.skip(n + 1) == x.skip(n).drop_first(),
{
    assert(x.take(n + 1) =~= x.take(n).push(x.skip(n)[0]));
    assert(x.skip(n + 1) =~= x.skip(n).drop_first());
}

/// Undoes `escape` on the characters `from..to` of `s`; `None` where they are
/// the escaped form of no string.
fn unescape_range(s: &str, from: usize, to: usize) -> (r: Option<String>)
    requires
        from <= to <= s@.len(),
    ensures
        r matches Some(x) ==> escape(x@) == s@.subrange(from as int, to as int),
        r is None ==> forall|x: Seq<char>| escape(x) != s@.subrange(from as int, to as int),
{
    let ghost t = s@.subrange(from as int, to as int);
    let mut cur = String::new();
    let mut i: usize = from;
    assert(t.take(0) =~= seq![]);
    assert(escape(cur@) == t.take(0));
    assert(t.skip(0) =~= t);
    assert forall|x: Seq<char>| #[trigger] escape(x) == t implies x.take(cur@.len() as int) == cur@
        && escape(x.skip(cur@.len() as int)) == t.skip(0) by {
        assert(x.take(0) =~= cur@);
        assert(x.skip(0) =~= x);
    }
    while i < to
        invariant
            from <= i <= to <= s@.len(),
            t == s@.subrange(from as int, to as int),
            escape(cur@) == t.take(i - from),
            forall|x: Seq<char>|
                #[trigger] escape(x) == t ==> cur@.len() <= x.len() && x.take(cur@.len() as int)
                    == cur@ && escape(x.skip(cur@.len() as int)) == t.skip(i - from),
        decreases to - i,
    {
        let c = s.get_char(i);
        let ghost k = (i - from) as int;
        let ghost n = cur@.len() as int;
        let ghost old_cur = cur@;
        if c == '%' {
            let ok = if to - i <= 2 {
                None
            } else {
                match (hex_value(s.get_char(i + 1)), hex_value(s.get_char(i + 2))) {
                    (Some(hv), Some(lv)) => {
                        let v = 16 * hv + lv;
                        if v < 128 {
                            let d = (v as u8) as char;
                            if plain(d) {
                                None
                            } else {
                                Some(d)
                            }
                        } else {
                            None
                        }
                    },
                    _ => None,
                }
            };
            match ok {
                Some(d) => {
                    push_char(&mut cur, d);
                    proof {
                        assert(code(d) == 16 * (code(d) / 16) + code(d) % 16);
                        lemma_hex_digit(code(d) / 16);
                        lemma_hex_digit(code(d) % 16);
                        assert(t[k + 1] == hex_digit(code(d) / 16));
                        assert(t[k + 2] == hex_digit(code(d) % 16));
                        assert(escape_char(d) =~= t.subrange(k, k + 3));
                        lemma_escape_push(old_cur, d);
                        assert(escape(cur@) =~= t.take(k + 3));
                        assert forall|x: Seq<char>| #[trigger] escape(x) == t implies cur@.len()
                            <= x.len() && x.take(cur@.len() as int) == cur@ && escape(
                            x.skip(cur@.len() as int),
                        ) == t.skip(k + 3) by {
                            let y = x.skip(n);
                            lemma_next_token(t, k, y);
                            lemma_hex_digit(code(y[0]) / 16);
                            lemma_hex_digit(code(y[0]) % 16);
                            lemma_code_injective(y[0], d);
                            lemma_split_next(x, n);
                        }
                    }
                    i = i + 3;
                },
                None => {
                    proof {
                        assert forall|x: Seq<char>| escape(x) != t by {
                            if escape(x) == t {
                                let y = x.skip(n);
                                lemma_next_token(t, k, y);
                                let cy = code(y[0]);
                                lemma_hex_digit(cy / 16);
                                lemma_hex_digit(cy % 16);
                                assert(cy == 16 * (cy / 16) + cy % 16);
                                assert((cy as u8) as char == y[0]) by {
                                    lemma_code_injective((cy as u8) as char, y[0]);
                                }
                            }
                        }
                    }
                    return None;
                },
            }
        } else if plain(c) {
            push_char(&mut cur, c);
            proof {
                lemma_escape_push(old_cur, c);
                assert(escape(cur@) =~= t.take(k + 1));
                assert forall|x: Seq<char>| #[trigger] escape(x) == t implies cur@.len() <= x.len()
                    && x.take(cur@.len() as int) == cur@ && escape(x.skip(cur@.len() as int))
                    == t.skip(k + 1) by {
                    let y = x.skip(n);
                    lemma_next_token(t, k, y);
                    lemma_split_next(x, n);
                }
            }
            i = i + 1;
        } else {
            proof {
                assert forall|x: Seq<char>| escape(x) != t by {
                    if escape(x) == t {
                        lemma_next_token(t, k, x.skip(n));
                    }
                }
            }
            return None;
        }
    }
    assert(t.take(t.len() as int) =~= t);
    Some(cur)
}

/// Reads a package identity back from the name of its cache directory:
/// `Some` exactly for the names that `cache_dir_name` gives, with the identity
/// it was given.
pub fn parse_cache_dir(s: &str) -> (r: Option<PackageIdentity>)
    ensures
        r matches Some(id) ==> cache_dir_spec(id@) == s@,
        r is None ==> forall|id: (Seq<char>, Seq<char>)| cache_dir_spec(id) != s@,
{
    let n = s.unicode_len();
    let mut k: usize = 0;
    while k < n && s.get_char(k) != '-'
        invariant
            n == s@.len(),
            k <= n,
            forall|j: int| 0 <= j < k ==> s@[j] != '-',
        decreases n - k,
    {
        k = k + 1;
    }
    if k == n {
        proof {
            assert forall|id: (Seq<char>, Seq<char>)| cache_dir_spec(id) != s@ by {
                if cache_dir_spec(id) == s@ {
                    lemma_escape_no_dash(id.0);
                    assert(s@[escape(id.0).len() as int] == '-');
                }
            }
        }
        return None;
    }
    let name = unescape_range(s, 0, k);
    let version = unescape_range(s, k + 1, n);
    proof {
        assert forall|id: (Seq<char>, Seq<char>)| cache_dir_spec(id) == s@ implies escape(id.0)
            == s@.subrange(0, k as int) && escape(id.1) == s@.subrange(k + 1, n as int) by {
            lemma_escape_no_dash(id.0);
            let la = escape(id.0).len() as int;
            assert(s@[la] == '-');
            if la > k {
                assert(escape(id.0)[k as int] == '-');
            }
            assert(escape(id.0) =~= s@.subrange(0, k as int));
            assert(escape(id.1) =~= s@.subrange(k + 1, n as int));
        }
    }
    match (name, version) {
        (Some(a), Some(b)) => {
            let id = PackageIdentity { name: a, version: b };
            assert(cache_dir_spec(id@) =~= s@);
            Some(id)
        },
        _ => None,
    }
}

} // verus!

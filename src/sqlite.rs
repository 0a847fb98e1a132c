use vstd::prelude::*;
use vstd::utf8::*;

verus! {

/// Errors of the SQLite connector.
#[derive(Debug, Clone, PartialEq, Eq)]
pub enum Error {
    /// The path names a directory or cannot be used.
    DatabaseUrlIsInvalid(String),
    /// An option of the connection string does not parse.
    InvalidConnectionArguments,
    UniqueConstraintViolation { constraint: Vec<String> },
    NullConstraintViolation { constraint: Vec<String> },
    DriverError(String),
}

/// The parameters of a SQLite connection string.
#[derive(Debug, Clone, PartialEq, Eq)]
pub struct SqliteParams {
    pub connection_limit: u32,
    pub file_path: String,
    pub db_name: String,
    /// Seconds that the driver waits for a locked database.
    pub socket_timeout: u64,
}

pub const DEFAULT_SCHEMA_NAME: &'static str = "quaint";

pub const DEFAULT_SOCKET_TIMEOUT: u64 = 5;

/// A position next to an ASCII byte of valid UTF-8 is a char boundary.
pub proof fn lemma_ascii_boundary(bytes: Seq<u8>, i: int)
    requires
        valid_utf8(bytes),
        0 <= i <= bytes.len(),
        i == 0 || i == bytes.len() || bytes[i] < 0x80 || bytes[i - 1] < 0x80,
    ensures
        is_char_boundary(bytes, i),
    decreases bytes.len(),
{
    if i != 0 {
        let l = length_of_first_scalar(bytes);
        let tail = pop_first_scalar(bytes);
        assert(1 <= l <= 4 && l <= bytes.len());
        if i < l {
            assert(is_continuation_byte(bytes[i]) || i == bytes.len());
            assert(i - 1 == 0 || is_continuation_byte(bytes[i - 1]));
            assert(false);
        }
        assert(tail.len() == bytes.len() - l);
        if i - l > 0 && i - l < tail.len() {
            assert(tail[i - l] == bytes[i]);
            assert(tail[i - l - 1] == bytes[i - 1]);
        }
        lemma_ascii_boundary(tail, i - l);
    }
}

pub open spec fn has_prefix(s: Seq<u8>, p: Seq<u8>) -> bool {
    p.len() <= s.len() && s.subrange(0, p.len() as int) == p
}

/// `s` with every leading copy of `p` removed.
pub open spec fn strip_all(s: Seq<u8>, p: Seq<u8>) -> Seq<u8>
    decreases s.len(),
{
    if p.len() > 0 && has_prefix(s, p) {
        strip_all(s.subrange(p.len() as int, s.len() as int), p)
    } else {
        s
    }
}

pub open spec fn file_scheme() -> Seq<u8> {
    seq![102u8, 105, 108, 101, 58]
}

pub open spec fn sqlite_scheme() -> Seq<u8> {
    seq![115u8, 113, 108, 105, 116, 101, 58]
}

/// The connection string without its scheme: leading `file:`s where it starts with one, else
/// leading `sqlite:`s.
pub open spec fn without_scheme(s: Seq<u8>) -> Seq<u8> {
    if has_prefix(s, file_scheme()) {
        strip_all(s, file_scheme())
    } else {
        strip_all(s, sqlite_scheme())
    }
}

/// The first position at or after `from` that holds `c`, or the length.
pub open spec fn index_of(s: Seq<u8>, c: u8, from: int) -> int
    decreases s.len() - from,
{
    if from < 0 || from >= s.len() {
        s.len() as int
    } else if s[from] == c {
        from
    } else {
        index_of(s, c, from + 1)
    }
}

/// The last position that holds `c`.
pub open spec fn last_index_of(s: Seq<u8>, c: u8) -> Option<int>
    decreases s.len(),
{
    if s.len() == 0 {
        None
    } else if s.last() == c {
        Some(s.len() - 1)
    } else {
        last_index_of(s.drop_last(), c)
    }
}

pub open spec fn is_digit(b: u8) -> bool {
    48 <= b <= 57
}

pub open spec fn digits_value(s: Seq<u8>) -> nat
    decreases s.len(),
{
    if s.len() == 0 {
        0
    } else {
        digits_value(s.drop_last()) * 10 + (s.last() - 48) as nat
    }
}

/// `s` without a leading `+`.
pub open spec fn digits_part(s: Seq<u8>) -> Seq<u8> {
    if s.len() > 0 && s[0] == 43 {
        s.subrange(1, s.len() as int)
    } else {
        s
    }
}

pub open spec fn all_digits(d: Seq<u8>) -> bool {
    forall|k: int| 0 <= k < d.len() ==> is_digit(#[trigger] d[k])
}

/// The unsigned integer that `s` writes: an optional `+` and one or more decimal digits.
pub open spec fn parse_uint(s: Seq<u8>) -> Option<nat> {
    if digits_part(s).len() > 0 && all_digits(digits_part(s)) {
        Some(digits_value(digits_part(s)))
    } else {
        None
    }
}

/// The options that a connection string sets.
pub struct Options {
    pub connection_limit: Option<nat>,
    pub db_name: Option<Seq<u8>>,
    pub socket_timeout: nat,
}

pub open spec fn key_connection_limit() -> Seq<u8> {
    seq![99u8, 111, 110, 110, 101, 99, 116, 105, 111, 110, 95, 108, 105, 109, 105, 116]
}

pub open spec fn key_db_name() -> Seq<u8> {
    seq![100u8, 98, 95, 110, 97, 109, 101]
}

pub open spec fn key_socket_timeout() -> Seq<u8> {
    seq![115u8, 111, 99, 107, 101, 116, 95, 116, 105, 109, 101, 111, 117, 116]
}

/// One `key=value` option applied; `None` where it has no `=`, its value does not parse, or a
/// connection limit is not positive. The value ends at a second `=`; unknown keys are ignored.
pub open spec fn apply_option(seg: Seq<u8>, st: Options) -> Option<Options> {
    let e = index_of(seg, 61, 0);
    if e >= seg.len() {
        None
    } else {
        let key = seg.subrange(0, e);
        let value = seg.subrange(e + 1, index_of(seg, 61, e + 1));
        if key == key_connection_limit() {
            match parse_uint(value) {
                Some(v) if 0 < v <= usize::MAX => Some(Options { connection_limit: Some(v), ..st }),
                _ => None,
            }
        } else if key == key_db_name() {
            Some(Options { db_name: Some(value), ..st })
        } else if key == key_socket_timeout() {
            match parse_uint(value) {
                Some(v) if v <= u64::MAX => Some(Options { socket_timeout: v, ..st }),
                _ => None,
            }
        } else {
            Some(st)
        }
    }
}

/// The options of the `&`-separated list `q` from position `pos` on, applied in order to `st`.
pub open spec fn apply_options(q: Seq<u8>, pos: int, st: Options) -> Option<Options>
    decreases q.len() - pos,
{
    let end = index_of(q, 38, pos);
    match apply_option(q.subrange(pos, end), st) {
        None => None,
        Some(st2) => if end >= q.len() || pos < 0 || end < pos {
            Some(st2)
        } else {
            apply_options(q, end + 1, st2)
        },
    }
}

/// The path of a connection string: what follows the scheme, up to the first `?`.
pub open spec fn spec_path(s: Seq<u8>) -> Seq<u8> {
    let rest = without_scheme(s);
    rest.subrange(0, index_of(rest, 63, 0))
}

/// The options that a connection string sets: those after its last `?`, if it has one.
pub open spec fn spec_options(s: Seq<u8>) -> Option<Options> {
    let rest = without_scheme(s);
    let start = Options { connection_limit: None, db_name: None, socket_timeout: DEFAULT_SOCKET_TIMEOUT as nat };
    match last_index_of(rest, 63) {
        None => Some(start),
        Some(q) => apply_options(rest.subrange(q + 1, rest.len() as int), 0, start),
    }
}

/// The connection limit where none is given: twice the physical cores, plus one, at most
/// `u32::MAX`.
pub open spec fn default_connection_limit(physical_cpus: nat) -> nat {
    if 2 * physical_cpus + 1 > u32::MAX {
        u32::MAX as nat
    } else {
        2 * physical_cpus + 1
    }
}

/// Relies on num_cpus::get_physical: the number of physical cores of this machine, which may be
/// anything.
#[verifier::external_body]
fn physical_cpus() -> (r: usize) {
    num_cpus::get_physical()
}

/// Relies on std::path::Path::is_dir: whether the path names an existing directory, which depends
/// on the file system.
#[verifier::external_body]
fn path_is_dir(path: &str) -> (r: bool) {
    std::path::Path::new(path).is_dir()
}

/// Every proper prefix of a string of digits writes a number no larger than the whole.
proof fn lemma_digits_prefix(s: Seq<u8>, k: int)
    requires
        0 <= k <= s.len(),
    ensures
        digits_value(s.subrange(0, k)) <= digits_value(s),
    decreases s.len(),
{
    if k < s.len() {
        assert(s.drop_last().subrange(0, k) =~= s.subrange(0, k));
        lemma_digits_prefix(s.drop_last(), k);
        let x = digits_value(s.drop_last());
        assert(x <= x * 10 + (s.last() - 48) as nat) by (nonlinear_arith);
    } else {
        assert(s.subrange(0, k) =~= s);
    }
}

/// The number that `v[from..to]` writes, where it parses and fits in a `u64`.
fn parse_uint_at(v: &Vec<u8>, from: usize, to: usize) -> (r: Option<u64>)
    requires
        from <= to <= v@.len(),
    ensures
        r == (match parse_uint(v@.subrange(from as int, to as int)) {
            Some(n) => if n <= u64::MAX {
                Some(n as u64)
            } else {
                None
            },
            None => None,
        }),
{
    let ghost s = v@.subrange(from as int, to as int);
    let mut i = from;
    if i < to && v[i] == 43 {
        i += 1;
    }
    let ghost d = v@.subrange(i as int, to as int);
    assert(d =~= digits_part(s));
    if i >= to {
        return None;
    }
    let start = i;
    let mut value: u64 = 0;
    while i < to
        invariant
            start <= i <= to <= v@.len(),
            d == v@.subrange(start as int, to as int),
            d.len() > 0,
            value as nat == digits_value(d.subrange(0, i - start)),
            forall|k: int| 0 <= k < i - start ==> is_digit(#[trigger] d[k]),
            s == v@.subrange(from as int, to as int),
            d == digits_part(s),
        decreases to - i,
    {
        let b = v[i];
        assert(d[i - start] == b);
        if b < 48 || b > 57 {
            assert(!is_digit(d[i - start]));
            assert(!all_digits(d));
            return None;
        }
        assert(d.subrange(0, i - start + 1).drop_last() =~= d.subrange(0, i - start));
        assert(d.subrange(0, i - start + 1).last() == b);
        match value.checked_mul(10) {
            Some(m) => match m.checked_add((b - 48) as u64) {
                Some(n) => {
                    value = n;
                },
                None => {
                    proof {
                        lemma_all_digits_prefix(d, i - start + 1);
                        assert(digits_value(d.subrange(0, i - start + 1)) == digits_value(d.subrange(0, i - start)) * 10 + (b - 48) as nat);
                    }
                    return None;
                },
            },
            None => {
                proof {
                    lemma_all_digits_prefix(d, i - start + 1);
                }
                return None;
            },
        }
        i += 1;
    }
    assert(d.subrange(0, d.len() as int) =~= d);
    Some(value)
}

/// A string of digits whose prefix writes more than `u64::MAX` does not parse into a `u64`.
proof fn lemma_all_digits_prefix(d: Seq<u8>, k: int)
    requires
        0 < k <= d.len(),
        digits_value(d.subrange(0, k)) > u64::MAX,
    ensures
        !all_digits(d) || digits_value(d) > u64::MAX,
{
    lemma_digits_prefix(d, k);
}

fn copy_range(b: &[u8], from: usize, to: usize) -> (r: Vec<u8>)
    requires
        from <= to <= b@.len(),
    ensures
        r@ == b@.subrange(from as int, to as int),
{
    let mut r: Vec<u8> = Vec::new();
    let mut i = from;
    while i < to
        invariant
            from <= i <= to <= b@.len(),
            r@ == b@.subrange(from as int, i as int),
        decreases to - i,
    {
        r.push(b[i]);
        i += 1;
        assert(r@ =~= b@.subrange(from as int, i as int));
    }
    r
}

/// The first position at or after `from` that holds `c`, or the length.
fn index_of_exec(v: &Vec<u8>, c: u8, from: usize) -> (r: usize)
    requires
        from <= v@.len(),
    ensures
        r == index_of(v@, c, from as int),
        from <= r <= v@.len(),
        r < v@.len() ==> v@[r as int] == c,
{
    let mut i = from;
    while i < v.len()
        invariant
            from <= i <= v@.len(),
            index_of(v@, c, from as int) == index_of(v@, c, i as int),
        decreases v@.len() - i,
    {
        if v[i] == c {
            return i;
        }
        i += 1;
    }
    i
}

/// The last position that holds `c`.
fn last_index_of_exec(v: &Vec<u8>, c: u8) -> (r: Option<usize>)
    ensures
        r == (match last_index_of(v@, c) {
            Some(i) => Some(i as usize),
            None => None,
        }),
        r is Some ==> r->0 < v@.len() && v@[r->0 as int] == c,
        r is Some ==> last_index_of(v@, c) == Some(r->0 as int),
        r is None ==> last_index_of(v@, c) is None,
{
    let mut i = v.len();
    assert(v@.subrange(0, v@.len() as int) =~= v@);
    while i > 0
        invariant
            i <= v@.len(),
            last_index_of(v@, c) == last_index_of(v@.subrange(0, i as int), c),
        decreases i,
    {
        assert(v@.subrange(0, i as int).drop_last() =~= v@.subrange(0, i - 1));
        if v[i - 1] == c {
            return Some(i - 1);
        }
        i -= 1;
    }
    None
}

/// Whether `v[pos..]` starts with `p`.
fn has_prefix_at(v: &Vec<u8>, pos: usize, p: &Vec<u8>) -> (r: bool)
    requires
        pos <= v@.len(),
    ensures
        r == has_prefix(v@.subrange(pos as int, v@.len() as int), p@),
{
    let ghost rest = v@.subrange(pos as int, v@.len() as int);
    let vl = v.len();
    if p.len() > vl - pos {
        return false;
    }
    let mut k: usize = 0;
    while k < p.len()
        invariant
            0 <= k <= p@.len(),
            vl == v@.len(),
            pos <= v@.len(),
            p@.len() <= v@.len() - pos,
            p@.len() <= rest.len(),
            rest == v@.subrange(pos as int, v@.len() as int),
            forall|m: int| 0 <= m < k ==> rest[m] == p@[m],
        decreases p@.len() - k,
    {
        if v[pos + k] != p[k] {
            assert(rest.subrange(0, p@.len() as int)[k as int] != p@[k as int]);
            return false;
        }
        k += 1;
    }
    assert(rest.subrange(0, p@.len() as int) =~= p@);
    true
}

/// Whether `v[from..to]` equals `key`.
fn range_equals(v: &Vec<u8>, from: usize, to: usize, key: &Vec<u8>) -> (r: bool)
    requires
        from <= to <= v@.len(),
    ensures
        r == (v@.subrange(from as int, to as int) == key@),
{
    if to - from != key.len() {
        assert(v@.subrange(from as int, to as int).len() != key@.len());
        return false;
    }
    let mut k: usize = 0;
    while k < key.len()
        invariant
            0 <= k <= key@.len(),
            to - from == key@.len(),
            from <= to <= v@.len(),
            forall|m: int| 0 <= m < k ==> v@[from + m] == key@[m],
        decreases key@.len() - k,
    {
        if v[from + k] != key[k] {
            assert(v@.subrange(from as int, to as int)[k as int] != key@[k as int]);
            return false;
        }
        k += 1;
    }
    assert(v@.subrange(from as int, to as int) =~= key@);
    true
}

/// The position where the connection string's scheme ends.
fn scheme_end(b: &Vec<u8>) -> (r: usize)
    ensures
        r <= b@.len(),
        without_scheme(b@) == b@.subrange(r as int, b@.len() as int),
        r == 0 || b@[r - 1] == 58,
{
    let file = vec![102u8, 105, 108, 101, 58];
    let sqlite = vec![115u8, 113, 108, 105, 116, 101, 58];
    assert(file@ =~= file_scheme());
    assert(sqlite@ =~= sqlite_scheme());
    assert(b@.subrange(0, b@.len() as int) =~= b@);
    let p = if has_prefix_at(b, 0, &file) {
        file
    } else {
        sqlite
    };
    let mut pos: usize = 0;
    let bl = b.len();
    while has_prefix_at(b, pos, &p)
        invariant
            bl == b@.len(),
            pos <= b@.len(),
            p@.len() > 0,
            p@.last() == 58,
            pos == 0 || b@[pos - 1] == 58,
            without_scheme(b@) == strip_all(b@.subrange(pos as int, b@.len() as int), p@),
        decreases b@.len() - pos,
    {
        let ghost rest = b@.subrange(pos as int, b@.len() as int);
        assert(has_prefix(rest, p@));
        assert(p@.len() <= rest.len());
        assert(rest.subrange(p@.len() as int, rest.len() as int) =~= b@.subrange(pos + p@.len(), b@.len() as int));
        assert(rest.subrange(0, p@.len() as int)[p@.len() - 1] == b@[pos + p@.len() - 1]);
        pos += p.len();
    }
    pos
}

/// The text of `url` between byte positions `a` and `b`, each next to an ASCII byte or at an end.
fn substring(url: &str, a: usize, b: usize) -> (r: String)
    requires
        a <= b <= encode_utf8(url@).len(),
        a == 0 || encode_utf8(url@)[a - 1] < 0x80,
        b == encode_utf8(url@).len() || encode_utf8(url@)[b as int] < 0x80,
    ensures
        encode_utf8(r@) == encode_utf8(url@).subrange(a as int, b as int),
{
    let ghost bytes = encode_utf8(url@);
    proof {
        encode_utf8_valid_utf8(url@);
        lemma_ascii_boundary(bytes, a as int);
        valid_utf8_split(bytes, a as int);
        let tail = bytes.subrange(a as int, bytes.len() as int);
        if b < bytes.len() {
            assert(tail[b - a] == bytes[b as int]);
        }
        lemma_ascii_boundary(tail, (b - a) as int);
    }
    let (_, tail) = url.split_at(a);
    let (mid, _) = tail.split_at(b - a);
    proof {
        assert(encode_utf8(mid@) =~= bytes.subrange(a as int, b as int));
    }
    mid.to_owned()
}

/// The parameters describe the connection string `b` with options `o`.
pub open spec fn params_match(r: SqliteParams, b: Seq<u8>, o: Options, physical_cpus: nat) -> bool {
    &&& r.connection_limit as nat == match o.connection_limit {
        Some(v) => v,
        None => default_connection_limit(physical_cpus),
    }
    &&& encode_utf8(r.file_path@) == spec_path(b)
    &&& match o.db_name {
        Some(n) => encode_utf8(r.db_name@) == n,
        None => r.db_name@ == DEFAULT_SCHEMA_NAME@,
    }
    &&& r.socket_timeout as nat == o.socket_timeout
}

/// What parsing the connection string `b` gives, where its path is a directory or not.
pub open spec fn spec_parse_ok(r: Result<SqliteParams, Error>, b: Seq<u8>, path_is_dir: bool, physical_cpus: nat) -> bool {
    if path_is_dir {
        r is Err && r->Err_0 is DatabaseUrlIsInvalid && encode_utf8(r->Err_0->DatabaseUrlIsInvalid_0@)
            == spec_path(b)
    } else {
        match spec_options(b) {
            None => r == Err::<SqliteParams, Error>(Error::InvalidConnectionArguments),
            Some(o) => if o.connection_limit is Some && o.connection_limit->0 > u32::MAX {
                r == Err::<SqliteParams, Error>(Error::InvalidConnectionArguments)
            } else {
                r is Ok && params_match(r->Ok_0, b, o, physical_cpus)
            },
        }
    }
}

/// The path of a connection string: what follows its scheme, up to the first `?`.
pub fn sqlite_path(url: &str) -> (r: String)
    ensures
        encode_utf8(r@) == spec_path(encode_utf8(url@)),
{
    let bs = url.as_bytes();
    let b = copy_range(bs, 0, bs.len());
    assert(b@ =~= encode_utf8(url@));
    let start = scheme_end(&b);
    let rest = copy_range(b.as_slice(), start, b.len());
    let q = index_of_exec(&rest, 63, 0);
    assert(start + q < b@.len() ==> b@[start + q] == rest@[q as int]);
    let r = substring(url, start, start + q);
    assert(encode_utf8(url@).subrange(start as int, start + q) =~= rest@.subrange(0, q as int));
    r
}

/// The options parsed so far.
struct OptionState {
    limit: Option<usize>,
    db_name: Option<String>,
    timeout: u64,
}

spec fn state_matches(x: OptionState, st: Options) -> bool {
    &&& x.limit == (match st.connection_limit {
        Some(v) => Some(v as usize),
        None => None,
    })
    &&& (st.connection_limit is Some ==> st.connection_limit->0 <= usize::MAX)
    &&& match st.db_name {
        Some(n) => x.db_name is Some && encode_utf8(x.db_name->0@) == n,
        None => x.db_name is None,
    }
    &&& x.timeout as nat == st.socket_timeout
}

/// Applies the option `seg`, which stands at byte `abs` of `url`.
fn apply_one(url: &str, seg: &Vec<u8>, abs: usize, x: OptionState, st: Ghost<Options>) -> (r: Option<OptionState>)
    requires
        state_matches(x, st@),
        encode_utf8(url@).len() <= usize::MAX,
        abs + seg@.len() <= encode_utf8(url@).len(),
        seg@ == encode_utf8(url@).subrange(abs as int, abs + seg@.len()),
        abs == 0 || encode_utf8(url@)[abs - 1] < 0x80,
        abs + seg@.len() == encode_utf8(url@).len() || encode_utf8(url@)[abs + seg@.len()] < 0x80,
    ensures
        match apply_option(seg@, st@) {
            None => r is None,
            Some(st2) => r is Some && state_matches(r->0, st2),
        },
{
    let ghost b = encode_utf8(url@);
    let key_limit = vec![99u8, 111, 110, 110, 101, 99, 116, 105, 111, 110, 95, 108, 105, 109, 105, 116];
    let key_db = vec![100u8, 98, 95, 110, 97, 109, 101];
    let key_timeout = vec![115u8, 111, 99, 107, 101, 116, 95, 116, 105, 109, 101, 111, 117, 116];
    assert(key_limit@ =~= key_connection_limit());
    assert(key_db@ =~= key_db_name());
    assert(key_timeout@ =~= key_socket_timeout());
    let e = index_of_exec(seg, 61, 0);
    if e >= seg.len() {
        return None;
    }
    let e2 = index_of_exec(seg, 61, e + 1);
    let ghost value = seg@.subrange(e + 1, e2 as int);
    let mut x = x;
    if range_equals(seg, 0, e, &key_limit) {
        match parse_uint_at(seg, e + 1, e2) {
            Some(v) => {
                if v == 0 || v > usize::MAX as u64 {
                    return None;
                }
                x.limit = Some(v as usize);
                Some(x)
            },
            None => None,
        }
    } else if range_equals(seg, 0, e, &key_db) {
        let a = abs + e + 1;
        let z = abs + e2;
        proof {
            assert(b[a - 1] == seg@[e as int]);
            if e2 < seg@.len() {
                assert(b[z as int] == seg@[e2 as int]);
            }
        }
        let name = substring(url, a, z);
        assert(b.subrange(a as int, z as int) =~= value);
        x.db_name = Some(name);
        Some(x)
    } else if range_equals(seg, 0, e, &key_timeout) {
        match parse_uint_at(seg, e + 1, e2) {
            Some(v) => {
                x.timeout = v;
                Some(x)
            },
            None => None,
        }
    } else {
        Some(x)
    }
}

impl SqliteParams {
    /// Parses a connection string `[file:|sqlite:]PATH[?key=value(&key=value)*]`, given whether
    /// its path is a directory and the number of physical cores. Recognized keys are
    /// `connection_limit`, `db_name` and `socket_timeout`; others are ignored.
    #[verifier::rlimit(60)]
    pub fn parse(url: &str, path_is_dir: bool, physical_cpus: usize) -> (r: Result<SqliteParams, Error>)
        ensures
            spec_parse_ok(r, encode_utf8(url@), path_is_dir, physical_cpus as nat),
    {
        let path = sqlite_path(url);
        if path_is_dir {
            return Err(Error::DatabaseUrlIsInvalid(path));
        }
        let bs = url.as_bytes();
        let b = copy_range(bs, 0, bs.len());
        assert(b@ =~= encode_utf8(url@));
        let start = scheme_end(&b);
        let rest = copy_range(b.as_slice(), start, b.len());
        let ghost st0 = Options { connection_limit: None, db_name: None, socket_timeout: DEFAULT_SOCKET_TIMEOUT as nat };
        let mut x = OptionState { limit: None, db_name: None, timeout: DEFAULT_SOCKET_TIMEOUT };
        assert(without_scheme(b@) == rest@);
        let ghost mut st = st0;
        match last_index_of_exec(&rest, 63) {
            None => {
                assert(spec_options(b@) == Some(st0));
            },
            Some(lq) => {
                let qs = start + lq + 1;
                let qv = copy_range(b.as_slice(), qs, b.len());
                assert(qv@ =~= rest@.subrange(lq + 1, rest@.len() as int));
                assert(spec_options(b@) == apply_options(qv@, 0, st0));
                assert(b@[qs - 1] == rest@[lq as int]);
                let mut pos: usize = 0;
                let bl = b.len();
                loop
                    invariant
                        !path_is_dir,
                        bl == b@.len(),
                        pos <= qv@.len(),
                        qs + qv@.len() == b@.len(),
                        b@ == encode_utf8(url@),
                        qv@ == b@.subrange(qs as int, b@.len() as int),
                        spec_options(b@) == apply_options(qv@, pos as int, st),
                        state_matches(x, st),
                        qs >= 1,
                        pos == 0 ==> b@[qs - 1] == 63,
                        pos > 0 ==> qv@[pos - 1] == 38,
                    ensures
                        spec_options(b@) == Some(st),
                        state_matches(x, st),
                    decreases qv@.len() - pos,
                {
                    let end = index_of_exec(&qv, 38, pos);
                    let seg = copy_range(qv.as_slice(), pos, end);
                    let ghost next = apply_option(seg@, st);
                    assert(apply_options(qv@, pos as int, st) == match next {
                        None => None,
                        Some(st2) => if end >= qv@.len() || pos < 0 || end < pos {
                            Some(st2)
                        } else {
                            apply_options(qv@, end + 1, st2)
                        },
                    });
                    assert(seg@ =~= b@.subrange(qs + pos, qs + end));
                    assert(pos > 0 ==> b@[qs + pos - 1] == qv@[pos - 1]);
                    assert(qs + end < b@.len() ==> b@[qs + end] == qv@[end as int]);
                    match apply_one(url, &seg, qs + pos, x, Ghost(st)) {
                        None => {
                            assert(next is None);
                            assert(spec_options(b@) is None);
                            return Err(Error::InvalidConnectionArguments);
                        },
                        Some(y) => {
                            x = y;
                            proof {
                                st = next->0;
                            }
                        },
                    }
                    if end >= qv.len() {
                        assert(spec_options(b@) == Some(st));
                        break;
                    }
                    pos = end + 1;
                }
            },
        }
        assert(spec_options(b@) == Some(st));
        let limit = x.limit;
        let db_name = x.db_name;
        let timeout = x.timeout;
        let connection_limit: u32 = match limit {
            Some(v) => {
                if v > u32::MAX as usize {
                    return Err(Error::InvalidConnectionArguments);
                }
                v as u32
            },
            None => {
                if physical_cpus > 2147483647 {
                    u32::MAX
                } else {
                    (2 * physical_cpus + 1) as u32
                }
            },
        };
        let db_name = match db_name {
            Some(n) => n,
            None => DEFAULT_SCHEMA_NAME.to_owned(),
        };
        Ok(SqliteParams { connection_limit, file_path: path, db_name, socket_timeout: timeout })
    }

    /// Parses a connection string, looking up whether its path is a directory and the number of
    /// physical cores of this machine.
    pub fn try_from(url: &str) -> (r: Result<SqliteParams, Error>)
        ensures
            exists|is_dir: bool, cpus: nat| spec_parse_ok(r, encode_utf8(url@), is_dir, cpus),
    {
        let path = sqlite_path(url);
        let is_dir = path_is_dir(path.as_str());
        let cpus = physical_cpus();
        SqliteParams::parse(url, is_dir, cpus)
    }
}

} // verus!

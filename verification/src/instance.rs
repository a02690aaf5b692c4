//! Single-instance bookkeeping: lock file names and contents, and the
//! command line of a running instance (`--dump-args`).

use vstd::prelude::*;
use crate::launch::shell_split;
use vstd::string::StringSliceAdditionalSpecFns;
use crate::text::{chars_of, str_eq, string_of, trim, trim_vec};

verus! {

/// Whether `c` is an ASCII digit.
pub open spec fn is_digit(c: char) -> bool {
    '0' <= c <= '9'
}

/// The value of a string of ASCII digits.
pub open spec fn digits_value(s: Seq<char>) -> nat
    decreases s.len(),
{
    if s.len() == 0 {
        0
    } else {
        digits_value(s.drop_last()) * 10 + ((s.last() as u32) - 48) as nat
    }
}

/// `s` without one leading `+`.
pub open spec fn unsigned_part(s: Seq<char>) -> Seq<char> {
    if s.len() > 0 && s[0] == '+' {
        s.drop_first()
    } else {
        s
    }
}

/// Whether every character of `d` is an ASCII digit.
pub open spec fn all_digits(d: Seq<char>) -> bool {
    forall|i: int| 0 <= i < d.len() ==> is_digit(#[trigger] d[i])
}

/// `str::parse::<u32>`: an optional `+` and at least one ASCII digit,
/// whose value fits in a `u32`.
pub open spec fn parsed_u32(s: Seq<char>) -> Option<u32> {
    let d = unsigned_part(s);
    if d.len() > 0 && all_digits(d) && digits_value(d) <= u32::MAX {
        Some(digits_value(d) as u32)
    } else {
        None
    }
}

proof fn lemma_digits_monotone(s: Seq<char>, k: int)
    requires
        0 <= k <= s.len(),
        forall|i: int| 0 <= i < s.len() ==> is_digit(#[trigger] s[i]),
    ensures
        digits_value(s.take(k)) <= digits_value(s),
    decreases s.len() - k,
{
    if k < s.len() {
        lemma_digits_monotone(s, k + 1);
        assert(s.take(k + 1).drop_last() =~= s.take(k));
    } else {
        assert(s.take(k) =~= s);
    }
}

/// Parses a decimal `u32` as `str::parse` does.
pub fn parse_u32(s: &str) -> (r: Option<u32>)
    ensures
        r == parsed_u32(s@),
{
    let v = chars_of(s);
    let start: usize = if v.len() > 0 && v[0] == '+' {
        1
    } else {
        0
    };
    let ghost d = if s@.len() > 0 && s@[0] == '+' {
        s@.drop_first()
    } else {
        s@
    };
    assert(d =~= v@.skip(start as int));
    if start >= v.len() {
        return None;
    }
    let mut value: u64 = 0;
    let mut i: usize = start;
    while i < v.len()
        invariant
            start <= i <= v@.len(),
            v@ == s@,
            start == (if s@.len() > 0 && s@[0] == '+' { 1usize } else { 0usize }),
            d == (if s@.len() > 0 && s@[0] == '+' { s@.drop_first() } else { s@ }),
            d == v@.skip(start as int),
            forall|k: int| start <= k < i ==> is_digit(#[trigger] v@[k]),
            value == digits_value(v@.subrange(start as int, i as int)),
            value <= u32::MAX,
        decreases v@.len() - i,
    {
        let c = v[i];
        if !('0' <= c && c <= '9') {
            proof {
                assert(d[i - start] == v@[i as int]);
                assert(!is_digit(d[i - start]));
                assert(!(forall|k: int| 0 <= k < d.len() ==> is_digit(#[trigger] d[k])));
                assert(unsigned_part(s@) == d);
                assert(!all_digits(d));
            }
            return None;
        }
        assert(v@.subrange(start as int, i + 1).drop_last() =~= v@.subrange(start as int, i as int));
        let next = value * 10 + (c as u64 - 48);
        if next > 4294967295u64 {
            proof {
                assert(digits_value(v@.subrange(start as int, i + 1)) == next);
                if all_digits(d) {
                    assert(d.take(i + 1 - start) =~= v@.subrange(start as int, i + 1));
                    lemma_digits_monotone(d, i + 1 - start);
                    assert(digits_value(d) > u32::MAX);
                }
                assert(unsigned_part(s@) == d);
            }
            return None;
        }
        value = next;
        i += 1;
    }
    assert(v@.subrange(start as int, i as int) =~= d);
    assert(unsigned_part(s@) == d);
    assert(all_digits(d)) by {
        assert forall|k: int| 0 <= k < d.len() implies is_digit(#[trigger] d[k]) by {
            assert(d[k] == v@[start + k]);
        }
    }
    Some(value as u32)
}

/// The pid stored in a lock file's text.
pub fn parse_pid(content: &str) -> (r: Option<u32>)
    ensures
        r == parsed_u32(trim(content@)),
{
    let t = string_of(&trim_vec(&chars_of(content)));
    parse_u32(t.as_str())
}

/// A lowercase hexadecimal digit for `d < 16`.
pub open spec fn hex_char(d: nat) -> char {
    if d < 10 {
        crate::text::digit_char(d)
    } else if d == 10 {
        'a'
    } else if d == 11 {
        'b'
    } else if d == 12 {
        'c'
    } else if d == 13 {
        'd'
    } else if d == 14 {
        'e'
    } else {
        'f'
    }
}

/// The last `k` hexadecimal digits of `n`, most significant first.
pub open spec fn hex_digits(n: nat, k: nat) -> Seq<char>
    decreases k,
{
    if k == 0 {
        Seq::empty()
    } else {
        hex_digits(n / 16, (k - 1) as nat).push(hex_char(n % 16))
    }
}

fn hex_char_exec(d: u64) -> (c: char)
    requires
        d < 16,
    ensures
        c == hex_char(d as nat),
{
    if d < 10 {
        if d == 0 { '0' } else if d == 1 { '1' } else if d == 2 { '2' } else if d == 3 { '3' }
        else if d == 4 { '4' } else if d == 5 { '5' } else if d == 6 { '6' } else if d == 7 { '7' }
        else if d == 8 { '8' } else { '9' }
    } else if d == 10 {
        'a'
    } else if d == 11 {
        'b'
    } else if d == 12 {
        'c'
    } else if d == 13 {
        'd'
    } else if d == 14 {
        'e'
    } else {
        'f'
    }
}

/// The MD5 digest (RFC 1321) of a byte string: sixteen bytes.
pub uninterp spec fn md5_digest(bytes: Seq<u8>) -> Seq<u8>;

/// Calls `md5::compute`, which returns the MD5 digest of the bytes. Its
/// result is a function of the bytes alone, named `md5_digest`; the
/// algorithm itself is not restated here.
#[verifier::external_body]
fn md5_compute(bytes: &[u8]) -> (r: [u8; 16])
    ensures
        r@ == md5_digest(bytes@),
{
    md5::compute(bytes).0
}

/// Bytes in lowercase hexadecimal, two digits per byte (`{:02x}` each).
pub open spec fn hex_of_bytes(b: Seq<u8>) -> Seq<char>
    decreases b.len(),
{
    if b.len() == 0 {
        Seq::empty()
    } else {
        hex_of_bytes(b.drop_last()) + hex_digits(b.last() as nat, 2)
    }
}

/// Formats bytes as lowercase hexadecimal, two digits per byte.
pub fn hex_bytes(b: &[u8]) -> (r: String)
    ensures
        r@ == hex_of_bytes(b@),
{
    let mut acc: Vec<char> = Vec::new();
    let mut i: usize = 0;
    while i < b.len()
        invariant
            i <= b@.len(),
            acc@ == hex_of_bytes(b@.take(i as int)),
        decreases b@.len() - i,
    {
        let x = b[i];
        let hi = hex_char_exec((x / 16) as u64);
        let lo = hex_char_exec((x % 16) as u64);
        proof {
            reveal_with_fuel(hex_digits, 3);
            assert(b@.take(i + 1).drop_last() =~= b@.take(i as int));
            assert(b@.take(i + 1).last() == x);
            assert((x as nat / 16) % 16 == x as nat / 16);
            assert(hex_digits(x as nat, 2) =~= seq![hi, lo]);
        }
        acc.push(hi);
        acc.push(lo);
        i += 1;
    }
    assert(b@.take(b@.len() as int) =~= b@);
    string_of(&acc)
}

/// The MD5 digest of a text's UTF-8 bytes in 32 lowercase hexadecimal
/// digits.
pub open spec fn md5_hex(text: &str) -> Seq<char> {
    hex_of_bytes(md5_digest(text.spec_bytes()))
}

/// The MD5 digest of a text (its UTF-8 bytes) as lowercase hexadecimal.
pub fn md5_hash(text: &str) -> (r: String)
    ensures
        r@ == md5_hex(text),
{
    let d = md5_compute(text.as_bytes());
    hex_bytes(d.as_slice())
}

/// The name of an application's lock file: `{app}-{hash}.lock`, with the
/// MD5 digest of the user name in hexadecimal.
pub fn lock_file_name(app_name: &str, user: &str) -> (r: String)
    ensures
        r@ == app_name@ + "-"@ + md5_hex(user) + ".lock"@,
{
    let mut r = app_name.to_owned();
    r.append("-");
    let h = md5_hash(user);
    r.append(h.as_str());
    r.append(".lock");
    r
}

/// The path of the `/proc` entry that exists while a process runs.
pub fn proc_path(pid: u32) -> (r: String)
    ensures
        r@ == "/proc/"@ + crate::text::decimal(pid as int),
{
    let mut r = "/proc/".to_owned();
    let n = crate::text::decimal_string(pid as i64);
    r.append(n.as_str());
    r
}

/// A held lock file, removed when the instance exits.
pub struct LockFile {
    pub path: String,
}

impl LockFile {
    /// The path of the lock file.
    pub fn path(&self) -> (r: &str)
        ensures
            r@ == self.path@,
    {
        self.path.as_str()
    }
}

/// The pieces of `data` between zero bytes.
pub open spec fn nul_pieces(data: Seq<u8>) -> Seq<Seq<u8>>
    decreases data.len(),
{
    if data.len() == 0 {
        seq![Seq::empty()]
    } else {
        let prev = nul_pieces(data.drop_last());
        if data.last() == 0 {
            prev.push(Seq::empty())
        } else {
            prev.update(prev.len() - 1, prev.last().push(data.last()))
        }
    }
}

proof fn lemma_nul_pieces_nonempty(data: Seq<u8>)
    ensures
        nul_pieces(data).len() >= 1,
    decreases data.len(),
{
    if data.len() > 0 {
        lemma_nul_pieces_nonempty(data.drop_last());
    }
}

/// The arguments of a `/proc/<pid>/cmdline` file: its pieces between
/// zero bytes, without the empty piece after a final zero byte.
pub open spec fn cmdline_pieces(data: Seq<u8>) -> Seq<Seq<u8>> {
    let p = nul_pieces(data);
    if p.last().len() == 0 {
        p.drop_last()
    } else {
        p
    }
}

fn split_nul(data: &[u8]) -> (r: Vec<Vec<u8>>)
    ensures
        r@.map_values(|v: Vec<u8>| v@) == nul_pieces(data@),
        r@.len() >= 1,
{
    let mut r: Vec<Vec<u8>> = Vec::new();
    let mut cur: Vec<u8> = Vec::new();
    let mut i: usize = 0;
    while i < data.len()
        invariant
            i <= data@.len(),
            r@.map_values(|v: Vec<u8>| v@).push(cur@) == nul_pieces(data@.take(i as int)),
        decreases data@.len() - i,
    {
        assert(data@.take(i + 1).drop_last() =~= data@.take(i as int));
        let ghost rv = r@.map_values(|v: Vec<u8>| v@);
        if data[i] == 0 {
            let done = cur;
            r.push(done);
            cur = Vec::new();
            assert(r@.map_values(|v: Vec<u8>| v@) =~= rv.push(done@));
            assert(r@.map_values(|v: Vec<u8>| v@).push(cur@) =~= rv.push(done@).push(Seq::empty()));
        } else {
            let ghost c0 = cur@;
            cur.push(data[i]);
            assert(rv.push(cur@) =~= rv.push(c0).update(rv.push(c0).len() - 1, c0.push(data@[i as int])));
        }
        i += 1;
    }
    assert(data@.take(i as int) =~= data@);
    let ghost rv = r@.map_values(|v: Vec<u8>| v@);
    let last = cur;
    r.push(last);
    assert(r@.map_values(|v: Vec<u8>| v@) =~= rv.push(last@));
    r
}

/// What `String::from_utf8_lossy` returns for bytes.
pub uninterp spec fn utf8_lossy(b: Seq<u8>) -> Seq<char>;

/// Calls `String::from_utf8_lossy`, which decodes UTF-8 and replaces
/// invalid sequences with U+FFFD; its result is named by `utf8_lossy`.
#[verifier::external_body]
fn from_utf8_lossy(b: &[u8]) -> (r: String)
    ensures
        r@ == utf8_lossy(b@),
{
    String::from_utf8_lossy(b).into_owned()
}

/// What `shell_words::join` returns for a list of words.
pub uninterp spec fn shell_join(words: Seq<Seq<char>>) -> Seq<char>;

/// Calls `shell_words::join`, which joins words with spaces, quoting each
/// so that a POSIX shell splits the result back into them; its result is
/// named by `shell_join`. The crate documents it as the inverse of
/// `shell_words::split`: splitting the result gives the words back.
#[verifier::external_body]
fn shell_words_join(words: &Vec<String>) -> (r: String)
    ensures
        r@ == shell_join(words.deep_view()),
        shell_split(r@) == Some(words.deep_view()),
{
    shell_words::join(words)
}

/// Joins arguments into one shell-quoted command line, which splits back
/// into the same arguments.
pub fn join_args(args: &Vec<String>) -> (r: String)
    ensures
        r@ == shell_join(args.deep_view()),
        shell_split(r@) == Some(args.deep_view()),
{
    shell_words_join(args)
}

/// The command line of a process, shell-quoted, from the bytes of its
/// `/proc/<pid>/cmdline` file; none when it holds no argument.
pub fn dump_args_from_cmdline(data: &[u8]) -> (r: Option<String>)
    ensures
        cmdline_pieces(data@).len() == 0 ==> r is None,
        cmdline_pieces(data@).len() > 0 ==> (r matches Some(s) && s@ == shell_join(
            cmdline_pieces(data@).map_values(|p: Seq<u8>| utf8_lossy(p)),
        ) && shell_split(s@) == Some(cmdline_pieces(data@).map_values(|p: Seq<u8>| utf8_lossy(p)))),
{
    let pieces = split_nul(data);
    let ghost pv = pieces@.map_values(|v: Vec<u8>| v@);
    let mut n = pieces.len();
    assert(pv.last() == pieces@[n - 1]@);
    if pieces[n - 1].len() == 0 {
        n = n - 1;
    }
    let ghost cp = cmdline_pieces(data@);
    assert(cp =~= pv.take(n as int));
    if n == 0 {
        return None;
    }
    let mut args: Vec<String> = Vec::new();
    let mut i: usize = 0;
    while i < n
        invariant
            i <= n <= pieces@.len(),
            pv == pieces@.map_values(|v: Vec<u8>| v@),
            cp == pv.take(n as int),
            args.deep_view() =~= cp.take(i as int).map_values(|p: Seq<u8>| utf8_lossy(p)),
        decreases n - i,
    {
        assert(pv[i as int] == pieces@[i as int]@);
        let ghost before = args.deep_view();
        args.push(from_utf8_lossy(pieces[i].as_slice()));
        assert(args.deep_view() =~= before.push(utf8_lossy(cp[i as int])));
        i += 1;
    }
    assert(cp.take(n as int) =~= cp);
    Some(join_args(&args))
}

/// What a `--dump-args` request on the command line asks for.
pub enum DumpArgsRequest {
    /// No `--dump-args` flag.
    NotRequested,
    /// Dump the command line of this process.
    Pid(u32),
    /// The flag lacks a valid pid: print the usage.
    Usage,
}

/// The first position, from `i` on, where `x` occurs in `s`.
pub open spec fn first_index(s: Seq<Seq<char>>, x: Seq<char>, i: int) -> Option<int>
    decreases s.len() - i,
{
    if i < 0 || i >= s.len() {
        None
    } else if s[i] == x {
        Some(i)
    } else {
        first_index(s, x, i + 1)
    }
}

/// Finds `--dump-args <pid>` among the program's arguments: the first
/// such flag decides.
pub fn dump_args_request(args: &Vec<String>) -> (r: DumpArgsRequest)
    ensures
        match first_index(args.deep_view(), "--dump-args"@, 0) {
            None => r is NotRequested,
            Some(k) => match r {
                DumpArgsRequest::Pid(p) => k + 1 < args@.len() && parsed_u32(args@[k + 1]@) == Some(p),
                DumpArgsRequest::Usage => !(k + 1 < args@.len() && parsed_u32(args@[k + 1]@) is Some),
                DumpArgsRequest::NotRequested => false,
            },
        },
{
    let ghost av = args.deep_view();
    let mut i: usize = 0;
    while i < args.len()
        invariant
            i <= args@.len(),
            av == args.deep_view(),
            first_index(av, "--dump-args"@, 0) == first_index(av, "--dump-args"@, i as int),
        decreases args@.len() - i,
    {
        assert(av[i as int] == args@[i as int]@);
        if str_eq(args[i].as_str(), "--dump-args") {
            if i + 1 < args.len() {
                match parse_u32(args[i + 1].as_str()) {
                    Some(p) => return DumpArgsRequest::Pid(p),
                    None => return DumpArgsRequest::Usage,
                }
            }
            return DumpArgsRequest::Usage;
        }
        i += 1;
    }
    DumpArgsRequest::NotRequested
}


/// A process id written in decimal (as the lock file holds it) parses
/// back to the same id.
pub proof fn pid_roundtrip_law(pid: u32)
    ensures
        parsed_u32(crate::text::decimal(pid as int)) == Some(pid),
{
    crate::text::lemma_digits_roundtrip(pid as nat);
    let d = crate::text::digits(pid as nat);
    assert(crate::text::decimal(pid as int) == d);
    assert(unsigned_part(d) == d);
    assert(all_digits(d));
}

} // verus!

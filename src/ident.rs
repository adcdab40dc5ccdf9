//! Scoped identifiers for local CSS class names.
use md4::Digest;
use vstd::prelude::*;
use vstd::slice::slice_to_vec;
use vstd::utf8::encode_utf8;
use crate::text::{chars_of, string_of};

verus! {

/// The hash algorithm that identifiers are derived with.
pub enum HashFunction {
    Xxhash64,
    MD4,
}

/// Text hashed before everything else, if any.
pub enum HashSalt {
    NoSalt,
    Salt(String),
}

/// The hashing part of the output options.
pub struct OutputOptions {
    pub hash_function: HashFunction,
    pub hash_digest_length: usize,
    pub hash_salt: HashSalt,
}

/// What a CSS file's local class names are renamed with.
pub struct ModulesTransformConfig {
    /// The path of the CSS file.
    pub filename: String,
    /// The template of a generated identifier; it may hold `[path]`, `[hash]` and `[local]`.
    pub local_name_ident: String,
    pub hash_function: HashFunction,
    pub hash_digest_length: usize,
    pub hash_salt: HashSalt,
}

/// The 64-bit xxHash of `data` with seed 0.
pub uninterp spec fn xxh64_of(data: Seq<u8>) -> u64;

/// The MD4 digest of `data`.
pub uninterp spec fn md4_of(data: Seq<u8>) -> Seq<u8>;

/// Relies on `xxhash_rust::xxh64::xxh64`: the hash depends on the bytes and seed alone.
#[verifier::external_body]
fn xxh64_digest(data: &[u8]) -> (r: u64)
    ensures
        r == xxh64_of(data@),
{
    xxhash_rust::xxh64::xxh64(data, 0)
}

/// Relies on `md4::Md4::digest`: sixteen bytes that depend on the input alone.
#[verifier::external_body]
fn md4_digest(data: &[u8]) -> (r: Vec<u8>)
    ensures
        r@ == md4_of(data@),
        r@.len() == 16,
{
    md4::Md4::digest(data).to_vec()
}

pub open spec fn hex_alphabet() -> Seq<char> {
    seq!['0', '1', '2', '3', '4', '5', '6', '7', '8', '9', 'a', 'b', 'c', 'd', 'e', 'f']
}

/// The last `n` hexadecimal digits of `x`, most significant first.
pub open spec fn hex_digits(x: nat, n: nat) -> Seq<char>
    decreases n,
{
    if n == 0 {
        Seq::empty()
    } else {
        hex_digits(x / 16, (n - 1) as nat).push(hex_alphabet()[(x % 16) as int])
    }
}

/// Two lower-case hexadecimal digits for each byte.
pub open spec fn hex_of_bytes(b: Seq<u8>) -> Seq<char>
    decreases b.len(),
{
    if b.len() == 0 {
        Seq::empty()
    } else {
        hex_of_bytes(b.drop_last()) + hex_digits(b.last() as nat, 2)
    }
}

pub open spec fn salt_bytes(salt: HashSalt) -> Seq<u8> {
    match salt {
        HashSalt::NoSalt => Seq::empty(),
        HashSalt::Salt(s) => encode_utf8(s@),
    }
}

/// The hexadecimal digest of `data`.
pub open spec fn hex_digest(f: HashFunction, data: Seq<u8>) -> Seq<char> {
    match f {
        HashFunction::Xxhash64 => hex_digits(xxh64_of(data) as nat, 16),
        HashFunction::MD4 => hex_of_bytes(md4_of(data)),
    }
}

pub open spec fn is_ascii_digit(c: char) -> bool {
    '0' <= c && c <= '9'
}

pub open spec fn starts_with_digit(s: Seq<char>) -> bool {
    s.len() > 0 && is_ascii_digit(s[0])
}

/// The digest cut to `len` characters, with `_` before it where it would start with
/// a digit.
pub open spec fn safe_hash(digest: Seq<char>, len: nat) -> Seq<char> {
    let h = if len < digest.len() {
        digest.take(len as int)
    } else {
        digest
    };
    if starts_with_digit(h) {
        seq!['_'] + h
    } else {
        h
    }
}

pub open spec fn path_token() -> Seq<char> {
    seq!['[', 'p', 'a', 't', 'h', ']']
}

pub open spec fn hash_token() -> Seq<char> {
    seq!['[', 'h', 'a', 's', 'h', ']']
}

pub open spec fn local_token() -> Seq<char> {
    seq!['[', 'l', 'o', 'c', 'a', 'l', ']']
}

pub open spec fn token_at(t: Seq<char>, i: int, p: Seq<char>) -> bool {
    0 <= i && i + p.len() <= t.len() && t.subrange(i, i + p.len()) == p
}

/// `t[i..]` with each `[path]`, `[hash]` and `[local]` replaced; any other text stays.
pub open spec fn render_from(
    t: Seq<char>,
    i: int,
    path: Seq<char>,
    hash: Seq<char>,
    local: Seq<char>,
) -> Seq<char>
    decreases t.len() - i,
{
    if i < 0 || i >= t.len() {
        Seq::empty()
    } else if token_at(t, i, path_token()) {
        path + render_from(t, i + 6, path, hash, local)
    } else if token_at(t, i, hash_token()) {
        hash + render_from(t, i + 6, path, hash, local)
    } else if token_at(t, i, local_token()) {
        local + render_from(t, i + 7, path, hash, local)
    } else {
        seq![t[i]] + render_from(t, i + 1, path, hash, local)
    }
}

/// The identifier for `local`, given the template, the file's path, and the digest.
pub open spec fn ident_spec(
    template: Seq<char>,
    path: Seq<char>,
    digest: Seq<char>,
    len: nat,
    local: Seq<char>,
) -> Seq<char> {
    render_from(template, 0, path, safe_hash(digest, len), local)
}

impl ModulesTransformConfig {
    /// The bytes that are hashed for `local`: the salt, the file's path, the name.
    pub open spec fn hash_input(&self, local: Seq<char>) -> Seq<u8> {
        salt_bytes(self.hash_salt) + encode_utf8(self.filename@) + encode_utf8(local)
    }

    /// The identifier that `new_name_for` gives for `local`.
    pub open spec fn name_for(&self, local: Seq<char>) -> Seq<char> {
        ident_spec(
            self.local_name_ident@,
            self.filename@,
            hex_digest(self.hash_function, self.hash_input(local)),
            self.hash_digest_length as nat,
            local,
        )
    }

    pub fn new(filename: &str, local_name_ident: &str, output: &OutputOptions) -> (r: Self)
        ensures
            r.filename@ == filename@,
            r.local_name_ident@ == local_name_ident@,
            r.hash_function == output.hash_function,
            r.hash_digest_length == output.hash_digest_length,
            r.hash_salt == output.hash_salt,
    {
        let hash_function = match output.hash_function {
            HashFunction::Xxhash64 => HashFunction::Xxhash64,
            HashFunction::MD4 => HashFunction::MD4,
        };
        let hash_salt = match &output.hash_salt {
            HashSalt::NoSalt => HashSalt::NoSalt,
            HashSalt::Salt(s) => HashSalt::Salt(s.clone()),
        };
        ModulesTransformConfig {
            filename: filename.to_owned(),
            local_name_ident: local_name_ident.to_owned(),
            hash_function,
            hash_digest_length: output.hash_digest_length,
            hash_salt,
        }
    }

    /// The scoped identifier of the local class name `local`.
    pub fn new_name_for(&self, local: &str) -> (r: String)
        ensures
            r@ == self.name_for(local@),
    {
        let mut data: Vec<u8> = match &self.hash_salt {
            HashSalt::NoSalt => Vec::new(),
            HashSalt::Salt(s) => slice_to_vec(s.as_str().as_bytes()),
        };
        let mut path_bytes = slice_to_vec(self.filename.as_str().as_bytes());
        let mut local_bytes = slice_to_vec(local.as_bytes());
        data.append(&mut path_bytes);
        data.append(&mut local_bytes);
        let digest = hash_hex(&self.hash_function, data.as_slice());
        let digest = string_of(digest.as_slice());
        ident_from_digest(
            self.local_name_ident.as_str(),
            self.filename.as_str(),
            digest.as_str(),
            self.hash_digest_length,
            local,
        )
    }
}

fn hex_digit_char(d: u64) -> (c: char)
    requires
        d < 16,
    ensures
        c == hex_alphabet()[d as int],
{
    let digits: [char; 16] = [
        '0', '1', '2', '3', '4', '5', '6', '7', '8', '9', 'a', 'b', 'c', 'd', 'e', 'f',
    ];
    assert(digits@ == hex_alphabet());
    digits[d as usize]
}

fn push_hex(out: &mut Vec<char>, x: u64, n: usize)
    ensures
        final(out)@ == old(out)@ + hex_digits(x as nat, n as nat),
    decreases n,
{
    if n > 0 {
        push_hex(out, x / 16, n - 1);
        let ghost mid = out@;
        out.push(hex_digit_char(x % 16));
        proof {
            assert(old(out)@ + hex_digits((x / 16) as nat, (n - 1) as nat) == mid);
            assert(out@ =~= old(out)@ + hex_digits(x as nat, n as nat));
        }
    } else {
        assert(out@ =~= old(out)@ + hex_digits(x as nat, n as nat));
    }
}

fn hash_hex(f: &HashFunction, data: &[u8]) -> (r: Vec<char>)
    ensures
        r@ == hex_digest(*f, data@),
{
    let mut out: Vec<char> = Vec::new();
    match f {
        HashFunction::Xxhash64 => {
            push_hex(&mut out, xxh64_digest(data), 16);
            assert(out@ =~= hex_digest(*f, data@));
        },
        HashFunction::MD4 => {
            let bytes = md4_digest(data);
            let mut i: usize = 0;
            while i < bytes.len()
                invariant
                    i <= bytes@.len(),
                    out@ == hex_of_bytes(bytes@.subrange(0, i as int)),
                decreases bytes.len() - i,
            {
                proof {
                    assert(bytes@.subrange(0, i + 1).drop_last() =~= bytes@.subrange(0, i as int));
                }
                push_hex(&mut out, bytes[i] as u64, 2);
                i = i + 1;
            }
            assert(bytes@.subrange(0, i as int) =~= bytes@);
        },
    }
    out
}

fn push_chars(out: &mut Vec<char>, s: &[char])
    ensures
        final(out)@ == old(out)@ + s@,
{
    let mut i: usize = 0;
    while i < s.len()
        invariant
            i <= s.len(),
            out@ == old(out)@ + s@.subrange(0, i as int),
        decreases s.len() - i,
    {
        out.push(s[i]);
        i = i + 1;
        assert(out@ =~= old(out)@ + s@.subrange(0, i as int));
    }
    assert(s@.subrange(0, i as int) =~= s@);
}

fn token_matches(t: &[char], i: usize, p: &[char]) -> (r: bool)
    ensures
        r == token_at(t@, i as int, p@),
{
    if i > t.len() || p.len() > t.len() - i {
        return false;
    }
    let mut k: usize = 0;
    while k < p.len()
        invariant
            k <= p.len(),
            i + p.len() <= t.len(),
            forall|j: int| 0 <= j < k ==> t@[i + j] == p@[j],
        decreases p.len() - k,
    {
        if t[i + k] != p[k] {
            assert(t@.subrange(i as int, i + p@.len())[k as int] != p@[k as int]);
            return false;
        }
        k = k + 1;
    }
    assert(t@.subrange(i as int, i + p@.len()) =~= p@);
    true
}

/// The digest cut to `len` characters, with `_` before it where it would start with
/// a digit.
fn safe_hash_of(digest: &[char], len: usize) -> (r: Vec<char>)
    ensures
        r@ == safe_hash(digest@, len as nat),
{
    let end = if len < digest.len() {
        len
    } else {
        digest.len()
    };
    let mut h: Vec<char> = Vec::new();
    let mut i: usize = 0;
    while i < end
        invariant
            i <= end <= digest.len(),
            h@ == digest@.subrange(0, i as int),
        decreases end - i,
    {
        h.push(digest[i]);
        i = i + 1;
        assert(h@ =~= digest@.subrange(0, i as int));
    }
    assert(h@ =~= (if len < digest@.len() {
        digest@.take(len as int)
    } else {
        digest@
    }));
    if h.len() > 0 && '0' <= h[0] && h[0] <= '9' {
        let mut r: Vec<char> = Vec::new();
        r.push('_');
        push_chars(&mut r, h.as_slice());
        assert(r@ =~= seq!['_'] + h@);
        r
    } else {
        h
    }
}

/// The identifier for `local` made from a digest already computed: the digest is cut
/// to `length` characters, given `_` in front where it starts with a digit, and put
/// into `template` with the path and the local name.
pub fn ident_from_digest(
    template: &str,
    path: &str,
    digest: &str,
    length: usize,
    local: &str,
) -> (r: String)
    ensures
        r@ == ident_spec(template@, path@, digest@, length as nat, local@),
{
    let t = chars_of(template);
    let path_chars = chars_of(path);
    let local_chars = chars_of(local);
    let digest_chars = chars_of(digest);
    let hash = safe_hash_of(digest_chars.as_slice(), length);
    let path_tok = vec!['[', 'p', 'a', 't', 'h', ']'];
    let hash_tok = vec!['[', 'h', 'a', 's', 'h', ']'];
    let local_tok = vec!['[', 'l', 'o', 'c', 'a', 'l', ']'];
    assert(path_tok@ == path_token());
    assert(hash_tok@ == hash_token());
    assert(local_tok@ == local_token());
    let ghost spec_hash = safe_hash(digest@, length as nat);
    let mut out: Vec<char> = Vec::new();
    let mut i: usize = 0;
    while i < t.len()
        invariant
            i <= t@.len(),
            path_tok@ == path_token(),
            hash_tok@ == hash_token(),
            local_tok@ == local_token(),
            hash@ == spec_hash,
            render_from(t@, 0, path_chars@, spec_hash, local_chars@) == out@ + render_from(
                t@,
                i as int,
                path_chars@,
                spec_hash,
                local_chars@,
            ),
        decreases t.len() - i,
    {
        let ghost out0 = out@;
        if token_matches(t.as_slice(), i, path_tok.as_slice()) {
            push_chars(&mut out, path_chars.as_slice());
            i = i + 6;
        } else if token_matches(t.as_slice(), i, hash_tok.as_slice()) {
            push_chars(&mut out, hash.as_slice());
            i = i + 6;
        } else if token_matches(t.as_slice(), i, local_tok.as_slice()) {
            push_chars(&mut out, local_chars.as_slice());
            i = i + 7;
        } else {
            out.push(t[i]);
            assert(out@ == out0 + seq![t@[i as int]]);
            i = i + 1;
        }
        assert(out0 + (out@.subrange(out0.len() as int, out@.len() as int) + render_from(
            t@,
            i as int,
            path_chars@,
            spec_hash,
            local_chars@,
        )) =~= out@ + render_from(t@, i as int, path_chars@, spec_hash, local_chars@));
    }
    assert(out@ + render_from(t@, i as int, path_chars@, spec_hash, local_chars@) =~= out@);
    string_of(out.as_slice())
}

/// Generating an identifier is a function of the configuration and the local name:
/// equal inputs give equal identifiers.
pub proof fn lemma_name_deterministic(
    c1: &ModulesTransformConfig,
    c2: &ModulesTransformConfig,
    local1: Seq<char>,
    local2: Seq<char>,
)
    requires
        c1.filename@ == c2.filename@,
        c1.local_name_ident@ == c2.local_name_ident@,
        c1.hash_function == c2.hash_function,
        c1.hash_digest_length == c2.hash_digest_length,
        salt_bytes(c1.hash_salt) == salt_bytes(c2.hash_salt),
        local1 == local2,
    ensures
        c1.name_for(local1) == c2.name_for(local2),
{
}

/// The hash part of an identifier never starts with a decimal digit.
pub proof fn lemma_safe_hash_no_leading_digit(digest: Seq<char>, len: nat)
    ensures
        !starts_with_digit(safe_hash(digest, len)),
{
}

/// An identifier whose template starts with `[hash]` does not start with a decimal
/// digit, where the hash part is not empty.
pub proof fn lemma_ident_no_leading_digit(
    template: Seq<char>,
    path: Seq<char>,
    digest: Seq<char>,
    len: nat,
    local: Seq<char>,
)
    requires
        token_at(template, 0, hash_token()),
        len > 0,
        digest.len() > 0,
    ensures
        !starts_with_digit(ident_spec(template, path, digest, len, local)),
{
    let h = safe_hash(digest, len);
    assert(h.len() > 0);
    assert(template.subrange(0, 6)[1] == 'h');
    assert(!token_at(template, 0, path_token())) by {
        assert(path_token()[1] == 'p');
    }
    let rest = render_from(template, 6, path, h, local);
    assert(ident_spec(template, path, digest, len, local) == h + rest);
    assert((h + rest)[0] == h[0]);
}

} // verus!

//! Cook-time failures and the ship-package allowlist.
use vstd::prelude::*;
use vstd::string::StrSliceExecFns;

verus! {

broadcast use vstd::string::group_string_axioms;

/// Why an authored document failed to compile.
#[derive(Clone, PartialEq, Eq, Debug)]
pub enum CompileError {
    /// Style or bind named a tag the closed library does not have.
    MissingTag(String),
    /// On-disk kitbash bytes do not match the lockfile.
    LockMismatch {
        /// File name under `data/kitbash`.
        file: String,
        /// Lockfile digest.
        expected: String,
        /// Digest of the bytes on disk.
        actual: String,
    },
    /// Lockfile names a file that is not on disk.
    MissingLockFile(String),
    /// Kitbash catalog failed to parse.
    Catalog(String),
    /// Canon cook failed.
    Canon(String),
    /// CAS / provenance failed.
    Prove(String),
    /// Clustered-mesh / grain / hull header is invalid.
    Header(String),
    /// A millimetre extent does not fit in quantized `i16` verts.
    QuantizeOverflow,
    /// Filesystem read failed.
    Io(String),
    /// `.warp` container is truncated, oversize, or has a bad magic/version.
    Warp(String),
    /// DCC ingest failed.
    Gltf(String),
    /// The current epoch cannot advance.
    EpochOverflow,
    /// Modular Intent failed to flatten.
    Flatten(String),
    /// Authoring-only artifact in the ship package graph.
    PackageAllowlist(String),
    /// A whole-title plan is malformed or over a limit.
    Optimization(String),
    /// A replay corpus diverged between reference and candidate.
    Equivalence(String),
    /// A placement table is malformed or over a limit.
    Placement(String),
}

/// Owned copy of a string slice.
pub fn text(s: &str) -> (r: String)
    ensures
        r@ == s@,
{
    s.to_string()
}

/// A header error carrying `msg`.
pub fn header_error(msg: &str) -> (r: CompileError)
    ensures
        r == CompileError::Header(r->Header_0),
        r->Header_0@ == msg@,
{
    CompileError::Header(text(msg))
}

/// `what actual > cap`, the text of a cap violation.
pub fn cap_message(what: &str, actual: u64, cap: u64) -> (r: String)
    ensures
        r@ == what@ + " "@ + spec_decimal(actual as nat) + " > "@ + spec_decimal(cap as nat),
{
    let mut s = text(what);
    s.append(" ");
    let a = decimal(actual);
    s.append(a.as_str());
    s.append(" > ");
    let c = decimal(cap);
    s.append(c.as_str());
    s
}

/// Concatenation of two strings' text.
pub fn concat(a: &str, b: &str) -> (r: String)
    ensures
        r@ == a@ + b@,
{
    let mut s = text(a);
    s.append(b);
    s
}

impl CompileError {
    /// Display text: the variant name and its payload in parentheses.
    pub open spec fn spec_text(&self) -> Seq<char> {
        match self {
            CompileError::MissingTag(t) => wrap("MissingTag"@, t@),
            CompileError::LockMismatch { file, expected, actual } => wrap(
                "LockMismatch"@,
                file@ + ": expected "@ + expected@ + ", got "@ + actual@,
            ),
            CompileError::MissingLockFile(p) => wrap("MissingLockFile"@, p@),
            CompileError::Catalog(s) => wrap("Catalog"@, s@),
            CompileError::Canon(s) => wrap("Canon"@, s@),
            CompileError::Prove(s) => wrap("Prove"@, s@),
            CompileError::Header(s) => wrap("Header"@, s@),
            CompileError::QuantizeOverflow => "QuantizeOverflow"@,
            CompileError::Io(s) => wrap("Io"@, s@),
            CompileError::Warp(s) => wrap("Warp"@, s@),
            CompileError::Gltf(s) => wrap("Gltf"@, s@),
            CompileError::EpochOverflow => "EpochOverflow"@,
            CompileError::Flatten(s) => wrap("Flatten"@, s@),
            CompileError::PackageAllowlist(p) => wrap("PackageAllowlist"@, p@),
            CompileError::Optimization(s) => wrap("Optimization"@, s@),
            CompileError::Equivalence(s) => wrap("Equivalence"@, s@),
            CompileError::Placement(s) => wrap("Placement"@, s@),
        }
    }

    /// Display text: the variant name and its payload in parentheses.
    pub fn to_text(&self) -> (r: String)
        ensures
            r@ == self.spec_text(),
    {
        match self {
            CompileError::MissingTag(t) => wrap_exec("MissingTag", t.as_str()),
            CompileError::LockMismatch { file, expected, actual } => {
                let mut inner = text(file.as_str());
                inner.append(": expected ");
                inner.append(expected.as_str());
                inner.append(", got ");
                inner.append(actual.as_str());
                wrap_exec("LockMismatch", inner.as_str())
            },
            CompileError::MissingLockFile(p) => wrap_exec("MissingLockFile", p.as_str()),
            CompileError::Catalog(s) => wrap_exec("Catalog", s.as_str()),
            CompileError::Canon(s) => wrap_exec("Canon", s.as_str()),
            CompileError::Prove(s) => wrap_exec("Prove", s.as_str()),
            CompileError::Header(s) => wrap_exec("Header", s.as_str()),
            CompileError::QuantizeOverflow => text("QuantizeOverflow"),
            CompileError::Io(s) => wrap_exec("Io", s.as_str()),
            CompileError::Warp(s) => wrap_exec("Warp", s.as_str()),
            CompileError::Gltf(s) => wrap_exec("Gltf", s.as_str()),
            CompileError::EpochOverflow => text("EpochOverflow"),
            CompileError::Flatten(s) => wrap_exec("Flatten", s.as_str()),
            CompileError::PackageAllowlist(p) => wrap_exec("PackageAllowlist", p.as_str()),
            CompileError::Optimization(s) => wrap_exec("Optimization", s.as_str()),
            CompileError::Equivalence(s) => wrap_exec("Equivalence", s.as_str()),
            CompileError::Placement(s) => wrap_exec("Placement", s.as_str()),
        }
    }
}

/// `name(payload)`.
pub open spec fn wrap(name: Seq<char>, payload: Seq<char>) -> Seq<char> {
    name + "("@ + payload + ")"@
}

fn wrap_exec(name: &str, payload: &str) -> (r: String)
    ensures
        r@ == wrap(name@, payload@),
{
    let mut s = text(name);
    s.append("(");
    s.append(payload);
    s.append(")");
    s
}

/// The path with every backslash turned into a slash.
pub open spec fn normalize_slashes(p: Seq<char>) -> Seq<char> {
    p.map_values(|c: char| if c == '\\' { '/' } else { c })
}

/// `s` occurs in `p` starting at `i`.
pub open spec fn occurs_at(p: Seq<char>, s: Seq<char>, i: int) -> bool {
    0 <= i && i + s.len() <= p.len() && p.subrange(i, i + s.len()) == s
}

/// `s` occurs somewhere in `p`.
pub open spec fn contains_seq(p: Seq<char>, s: Seq<char>) -> bool {
    exists|i: int| occurs_at(p, s, i)
}

/// Authoring-only paths: model weights, the studio tree, transcripts, GGUF files.
pub open spec fn banned_path(n: Seq<char>) -> bool {
    ||| occurs_at(n, "models/"@, 0)
    ||| contains_seq(n, "/models/"@)
    ||| occurs_at(n, "studio/"@, 0)
    ||| contains_seq(n, "/studio/"@)
    ||| contains_seq(n, "transcript"@)
    ||| (n.len() >= 5 && occurs_at(n, ".gguf"@, n.len() - 5))
}

/// The characters of a string slice.
pub fn chars_of(s: &str) -> (v: Vec<char>)
    ensures
        v@ == s@,
{
    let n = s.unicode_len();
    let mut v: Vec<char> = Vec::new();
    let mut i: usize = 0;
    while i < n
        invariant
            n == s@.len(),
            i <= n,
            v@ == s@.take(i as int),
        decreases n - i,
    {
        v.push(s.get_char(i));
        assert(s@.take(i + 1) =~= s@.take(i as int).push(s@[i as int]));
        i += 1;
    }
    assert(s@.take(n as int) =~= s@);
    v
}

/// A string of the given characters.
pub fn string_of(cs: &Vec<char>) -> (r: String)
    ensures
        r@ == cs@,
{
    let mut out = String::new();
    let mut i: usize = 0;
    while i < cs.len()
        invariant
            i <= cs@.len(),
            out@ == cs@.take(i as int),
        decreases cs.len() - i,
    {
        let one = char_str(cs[i]);
        out.append(one.as_str());
        assert(cs@.take(i + 1) =~= cs@.take(i as int) + seq![cs@[i as int]]);
        i += 1;
    }
    assert(cs@.take(cs@.len() as int) =~= cs@);
    out
}

/// A one-character string.
#[verifier::external_body]
pub fn char_str(c: char) -> (r: String)
    ensures
        r@ == seq![c],
{
    c.to_string()
}

/// ASCII digit for `0..=9`.
pub open spec fn digit_char(d: int) -> char {
    (48 + d) as char
}

/// Decimal text of a natural number, most significant digit first.
pub open spec fn spec_decimal(n: nat) -> Seq<char>
    decreases n,
{
    if n < 10 {
        seq![digit_char(n as int)]
    } else {
        spec_decimal(n / 10).push(digit_char((n % 10) as int))
    }
}

fn decimal_into(n: u64, out: &mut Vec<char>)
    ensures
        final(out)@ == old(out)@ + spec_decimal(n as nat),
    decreases n,
{
    if n >= 10 {
        decimal_into(n / 10, out);
    }
    let d = (n % 10) as u8;
    out.push((48u8 + d) as char);
    proof {
        assert(((48u8 + d) as char) == digit_char((n % 10) as int));
    }
}

/// Decimal text of `n`, as `Display` prints it.
pub fn decimal(n: u64) -> (r: String)
    ensures
        r@ == spec_decimal(n as nat),
{
    let mut v: Vec<char> = Vec::new();
    decimal_into(n, &mut v);
    assert(v@ =~= spec_decimal(n as nat));
    string_of(&v)
}

/// `s` occurs in `p` at `i`.
pub fn occurs_at_exec(p: &Vec<char>, s: &Vec<char>, i: usize) -> (r: bool)
    ensures
        r == occurs_at(p@, s@, i as int),
{
    if i > p.len() || s.len() > p.len() - i {
        return false;
    }
    let mut k: usize = 0;
    let plen = p.len();
    assert(p@.len() == plen);
    while k < s.len()
        invariant
            i + s@.len() <= p@.len(),
            i <= p@.len(),
            p@.len() <= usize::MAX,
            k <= s@.len(),
            forall|j: int| 0 <= j < k ==> p@[i + j] == s@[j],
        decreases s.len() - k,
    {
        if p[i + k] != s[k] {
            assert(p@.subrange(i as int, i + s@.len())[k as int] != s@[k as int]);
            return false;
        }
        k += 1;
    }
    assert(p@.subrange(i as int, i + s@.len()) =~= s@);
    true
}

/// `s` occurs somewhere in `p`.
pub fn contains_exec(p: &Vec<char>, s: &Vec<char>) -> (r: bool)
    ensures
        r == contains_seq(p@, s@),
{
    let mut i: usize = 0;
    while i < p.len()
        invariant
            i <= p@.len(),
            forall|j: int| 0 <= j < i ==> !occurs_at(p@, s@, j),
        decreases p.len() - i,
    {
        if occurs_at_exec(p, s, i) {
            return true;
        }
        i += 1;
    }
    if occurs_at_exec(p, s, p.len()) {
        return true;
    }
    assert forall|j: int| !occurs_at(p@, s@, j) by {
        if 0 <= j && j + s@.len() <= p@.len() {
            assert(j < p@.len() || j == p@.len());
        }
    }
    false
}

/// Reject authoring-only artifacts from the default ship package.
/// Backslashes are normalized to slashes first; the error carries the normalized path.
pub fn check_ship_allowlist(path: &str) -> (r: Result<(), CompileError>)
    ensures
        match r {
            Ok(()) => !banned_path(normalize_slashes(path@)),
            Err(e) => banned_path(normalize_slashes(path@)) && e == CompileError::PackageAllowlist(
                e->PackageAllowlist_0,
            ) && e->PackageAllowlist_0@ == normalize_slashes(path@),
        },
{
    let raw = chars_of(path);
    let mut n: Vec<char> = Vec::new();
    let mut i: usize = 0;
    while i < raw.len()
        invariant
            i <= raw@.len(),
            n@ == normalize_slashes(raw@.take(i as int)),
        decreases raw.len() - i,
    {
        let c = raw[i];
        n.push(if c == '\\' { '/' } else { c });
        assert(raw@.take(i + 1) =~= raw@.take(i as int).push(c));
        assert(normalize_slashes(raw@.take(i + 1)) =~= normalize_slashes(raw@.take(i as int)).push(if c == '\\' { '/' } else { c }));
        i += 1;
    }
    assert(raw@.take(raw@.len() as int) =~= raw@);
    let models = chars_of("models/");
    let smodels = chars_of("/models/");
    let studio = chars_of("studio/");
    let sstudio = chars_of("/studio/");
    let transcript = chars_of("transcript");
    let gguf = chars_of(".gguf");
    proof {
        reveal_strlit("models/");
        reveal_strlit("/models/");
        reveal_strlit("studio/");
        reveal_strlit("/studio/");
        reveal_strlit("transcript");
        reveal_strlit(".gguf");
    }
    let banned = occurs_at_exec(&n, &models, 0) || contains_exec(&n, &smodels) || occurs_at_exec(
        &n,
        &studio,
        0,
    ) || contains_exec(&n, &sstudio) || contains_exec(&n, &transcript) || (n.len() >= 5
        && occurs_at_exec(&n, &gguf, n.len() - 5));
    if banned {
        Err(CompileError::PackageAllowlist(string_of(&n)))
    } else {
        Ok(())
    }
}

} // verus!

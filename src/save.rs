use vstd::prelude::*;

verus! {

/// Format version written into every save.
pub const SAVE_VERSION: u32 = 1;

/// Number of save slots.
pub const MAX_SLOTS: usize = 5;

/// FNV-1a offset basis (64-bit).
pub const FNV_OFFSET: u64 = 0xcbf29ce484222325;

/// FNV-1a prime (64-bit).
pub const FNV_PRIME: u64 = 0x100000001b3;

/// One FNV-1a round: xor the byte in, then multiply by the prime modulo 2^64.
pub open spec fn fnv_step(hash: u64, byte: u8) -> u64 {
    vstd::wrapping::u64_specs::wrapping_mul(hash ^ (byte as u64), FNV_PRIME)
}

/// The 64-bit FNV-1a hash of `data`.
pub open spec fn fnv1a(data: Seq<u8>) -> u64
    decreases data.len(),
{
    if data.len() == 0 {
        FNV_OFFSET
    } else {
        fnv_step(fnv1a(data.drop_last()), data.last())
    }
}

/// A save on disk: the serialized save data with its checksum.
pub struct SaveFile {
    pub checksum: u64,
    pub data: Vec<u8>,
}

/// Why a save was rejected.
#[derive(Clone, Copy, Debug, PartialEq, Eq, Structural)]
pub enum SaveError {
    /// The checksum does not match the data.
    Corrupted,
    /// The save was written by another format version.
    IncompatibleVersion { found: u32 },
}

/// The 64-bit FNV-1a hash of `data`.
pub fn compute_checksum(data: &[u8]) -> (r: u64)
    ensures
        r == fnv1a(data@),
{
    let mut hash: u64 = FNV_OFFSET;
    let mut i: usize = 0;
    while i < data.len()
        invariant
            i <= data@.len(),
            hash == fnv1a(data@.subrange(0, i as int)),
        decreases data.len() - i,
    {
        proof {
            let next = data@.subrange(0, i + 1);
            assert(next.drop_last() =~= data@.subrange(0, i as int));
        }
        hash = hash ^ (data[i] as u64);
        hash = hash.wrapping_mul(FNV_PRIME);
        i = i + 1;
    }
    proof {
        assert(data@.subrange(0, data@.len() as int) =~= data@);
    }
    hash
}

impl SaveFile {
    /// Wraps serialized save data with its checksum.
    pub fn seal(data: Vec<u8>) -> (r: SaveFile)
        ensures
            r.data@ == data@,
            r.checksum == fnv1a(data@),
    {
        let checksum = compute_checksum(data.as_slice());
        SaveFile { checksum, data }
    }

    /// Whether the checksum matches the data.
    pub fn is_intact(&self) -> (r: bool)
        ensures
            r == (self.checksum == fnv1a(self.data@)),
    {
        compute_checksum(self.data.as_slice()) == self.checksum
    }

    /// The data of an intact save, or `Corrupted`.
    pub fn verified_data(&self) -> (r: Result<&Vec<u8>, SaveError>)
        ensures
            self.checksum == fnv1a(self.data@) ==> r == Ok::<&Vec<u8>, SaveError>(&self.data),
            self.checksum != fnv1a(self.data@) ==> r == Err::<&Vec<u8>, SaveError>(SaveError::Corrupted),
    {
        if self.is_intact() {
            Ok(&self.data)
        } else {
            Err(SaveError::Corrupted)
        }
    }
}

/// Accepts only saves of the current format version.
pub fn check_version(version: u32) -> (r: Result<(), SaveError>)
    ensures
        version == SAVE_VERSION ==> r == Ok::<(), SaveError>(()),
        version != SAVE_VERSION ==> r == Err::<(), SaveError>(SaveError::IncompatibleVersion { found: version }),
{
    if version == SAVE_VERSION {
        Ok(())
    } else {
        Err(SaveError::IncompatibleVersion { found: version })
    }
}

/// The character of a decimal digit.
pub open spec fn digit_char(d: int) -> char {
    if d == 0 { '0' } else if d == 1 { '1' } else if d == 2 { '2' } else if d == 3 { '3' } else if d == 4 { '4' }
    else if d == 5 { '5' } else if d == 6 { '6' } else if d == 7 { '7' } else if d == 8 { '8' } else { '9' }
}

/// Decimal notation of `n`, without leading zeros.
pub open spec fn decimal(n: nat) -> Seq<char>
    decreases n,
{
    if n < 10 {
        seq![digit_char(n as int)]
    } else {
        decimal(n / 10).push(digit_char((n % 10) as int))
    }
}

/// `dir` and `name` joined by a `/`, or `name` alone when `dir` is empty.
pub open spec fn joined(dir: Seq<char>, name: Seq<char>) -> Seq<char> {
    if dir.len() == 0 { name } else { dir + seq!['/'] + name }
}

/// Name of the save file of `slot`: `slot_<n>.sav`.
pub open spec fn save_name(slot: nat) -> Seq<char> {
    seq!['s', 'l', 'o', 't', '_'] + decimal(slot) + seq!['.', 's', 'a', 'v']
}

/// Name of the metadata file of `slot`: `slot_<n>.meta`.
pub open spec fn meta_name(slot: nat) -> Seq<char> {
    seq!['s', 'l', 'o', 't', '_'] + decimal(slot) + seq!['.', 'm', 'e', 't', 'a']
}

/// Relies on `String::push`, which appends one character.
#[verifier::external_body]
fn push_char(s: &mut String, c: char)
    ensures
        final(s)@ == old(s)@.push(c),
{
    s.push(c)
}

/// Relies on `String::push_str`, which appends a string slice.
#[verifier::external_body]
fn push_str(s: &mut String, t: &str)
    ensures
        final(s)@ == old(s)@ + t@,
{
    s.push_str(t)
}

fn digit(d: usize) -> (c: char)
    requires
        d < 10,
    ensures
        c == digit_char(d as int),
{
    if d == 0 { '0' } else if d == 1 { '1' } else if d == 2 { '2' } else if d == 3 { '3' } else if d == 4 { '4' }
    else if d == 5 { '5' } else if d == 6 { '6' } else if d == 7 { '7' } else if d == 8 { '8' } else { '9' }
}

/// Appends the decimal notation of `n`.
fn push_decimal(s: &mut String, n: usize)
    ensures
        final(s)@ == old(s)@ + decimal(n as nat),
    decreases n,
{
    if n >= 10 {
        push_decimal(s, n / 10);
    }
    push_char(s, digit(n % 10));
    proof {
        if n < 10 {
            assert(n % 10 == n);
        }
    }
    assert(s@ =~= old(s)@ + decimal(n as nat));
}

/// Starts a path in `dir`: the directory and a separator, or nothing when
/// `dir` is empty.
fn path_in(dir: &str) -> (r: String)
    ensures
        r@ == joined(dir@, Seq::<char>::empty()),
{
    let mut r = String::new();
    if !dir.is_empty() {
        push_str(&mut r, dir);
        push_char(&mut r, '/');
    }
    proof {
        assert(r@ =~= joined(dir@, Seq::empty()));
    }
    r
}

/// Path of the save file of `slot` inside the saves directory `dir`.
pub fn save_file_path(dir: &str, slot: usize) -> (r: String)
    ensures
        r@ == joined(dir@, save_name(slot as nat)),
{
    let mut r = path_in(dir);
    push_str(&mut r, "slot_");
    push_decimal(&mut r, slot);
    push_str(&mut r, ".sav");
    proof {
        reveal_strlit("slot_");
        reveal_strlit(".sav");
        assert(r@ =~= joined(dir@, save_name(slot as nat)));
    }
    r
}

/// Path of the metadata file of `slot` inside the saves directory `dir`.
pub fn meta_file_path(dir: &str, slot: usize) -> (r: String)
    ensures
        r@ == joined(dir@, meta_name(slot as nat)),
{
    let mut r = path_in(dir);
    push_str(&mut r, "slot_");
    push_decimal(&mut r, slot);
    push_str(&mut r, ".meta");
    proof {
        reveal_strlit("slot_");
        reveal_strlit(".meta");
        assert(r@ =~= joined(dir@, meta_name(slot as nat)));
    }
    r
}

} // verus!

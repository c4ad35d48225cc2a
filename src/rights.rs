//! Accounts, password hashes and content rights.
use crate::ids::Id;
use crate::secret::Secret;
use vstd::prelude::*;

verus! {

/// A set of rights on content, one bit per right.
#[derive(Debug, Clone, Copy, PartialEq, Eq, Structural)]
pub struct ContentRight(u32);

pub const READ_BIT: u32 = 1;

pub const WRITE_BIT: u32 = 2;

impl ContentRight {
    pub closed spec fn spec_bits(&self) -> u32 {
        self.0
    }

    pub fn from_bits(bits: u32) -> (r: Self)
        ensures
            r.spec_bits() == bits,
    {
        ContentRight(bits)
    }

    pub fn bits(&self) -> (r: u32)
        ensures
            r == self.spec_bits(),
    {
        self.0
    }

    /// No right at all.
    pub fn empty() -> (r: Self)
        ensures
            r.spec_bits() == 0,
    {
        ContentRight(0)
    }

    pub fn read() -> (r: Self)
        ensures
            r.spec_bits() == READ_BIT,
    {
        ContentRight(READ_BIT)
    }

    pub fn write() -> (r: Self)
        ensures
            r.spec_bits() == WRITE_BIT,
    {
        ContentRight(WRITE_BIT)
    }

    /// Every right, present and future.
    pub fn all() -> (r: Self)
        ensures
            r.spec_bits() == u32::MAX,
    {
        ContentRight(u32::MAX)
    }

    pub fn union(&self, other: &Self) -> (r: Self)
        ensures
            r.spec_bits() == self.spec_bits() | other.spec_bits(),
    {
        ContentRight(self.0 | other.0)
    }

    /// Whether every right of `other` is in `self`.
    pub fn contains(&self, other: &Self) -> (r: bool)
        ensures
            r == (self.spec_bits() & other.spec_bits() == other.spec_bits()),
    {
        self.0 & other.0 == other.0
    }
}

/// The cost parameters of an Argon2 hash: memory, iterations, parallelism.
#[derive(Debug, Clone, Copy, PartialEq, Eq, Structural)]
pub struct Argon2Params {
    pub m: usize,
    pub t: usize,
    pub p: usize,
}

/// The algorithm a password hash was made with.
#[derive(Debug, Clone, Copy, PartialEq, Eq, Structural)]
pub enum PwdAlg {
    Argon2id(Argon2Params),
}

/// The bytes of a password hash.
pub struct PwdHash(pub Secret<Vec<u8>>);

/// A stored password: its algorithm and hash.
pub struct Pwd {
    pub alg: PwdAlg,
    pub hash: PwdHash,
}

/// The credentials of one account.
pub struct Login {
    pub login_id: Id,
    pub username: Secret<String>,
    pub password: Pwd,
}

/// The rights an account holds.
pub struct LoginRight {
    pub login_id: Id,
    pub right: ContentRight,
}

} // verus!

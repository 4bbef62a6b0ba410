//! The access list: a set of info-hashes that the tracker serves only, or
//! refuses, or ignores.

use crate::hash_set::IdSet;
use crate::hex::{
    all_lower_hex_digits, hex_decoded, parse_info_hash_bytes, InfoHashParseError,
};
use vstd::prelude::*;
use vstd::utf8::encode_utf8;

verus! {

/// What the set of info-hashes means.
#[derive(Clone, Copy, Debug, PartialEq, Eq)]
pub enum AccessListMode {
    /// Only serve torrents with info hash present in file
    Require,
    /// Do not serve torrents if info hash present in file
    Forbid,
    /// Turn off access list functionality
    Ignore,
}

impl AccessListMode {
    /// Whether the list file is read at all in this mode.
    pub fn uses_file(&self) -> (used: bool)
        ensures
            used == !(*self is Ignore),
    {
        match self {
            AccessListMode::Require => true,
            AccessListMode::Forbid => true,
            AccessListMode::Ignore => false,
        }
    }
}

/// Mode of the access list and where its file lies.
#[derive(Clone, Debug)]
pub struct AccessListConfig {
    pub mode: AccessListMode,
    /// Path to access list file consisting of newline-separated hex-encoded info hashes.
    ///
    /// If using chroot mode, path must be relative to new root.
    pub path: String,
}

impl Default for AccessListConfig {
    fn default() -> (config: Self)
        ensures
            config.mode is Ignore,
            config.path@ == Seq::<char>::empty(),
    {
        Self { path: String::new(), mode: AccessListMode::Ignore }
    }
}

/// Whether a line of the list file is an info-hash: forty hexadecimal digits
/// in lower case and nothing else.
pub open spec fn is_info_hash_line(line: Seq<char>) -> bool {
    encode_utf8(line).len() == 40 && all_lower_hex_digits(encode_utf8(line))
}

/// The info-hash that a line of the list file spells.
pub open spec fn line_info_hash(line: Seq<char>) -> Seq<u8> {
    hex_decoded(encode_utf8(line))
}

/// The info-hashes that the first `count` lines spell.
pub open spec fn listed_info_hashes(lines: Seq<String>, count: int) -> Set<Seq<u8>> {
    Set::new(
        |hash: Seq<u8>|
            exists|i: int|
                0 <= i < count && i < lines.len() && #[trigger] line_info_hash(lines[i]@) == hash,
    )
}

/// Why a list file was refused.
#[derive(Clone, Copy, Debug, PartialEq, Eq)]
pub enum AccessListError {
    /// The line at index `line`, counted from zero, is the first that is not
    /// an info-hash.
    MalformedLine { line: usize, cause: InfoHashParseError },
}

/// The set of info-hashes that the tracker's mode speaks of.
pub struct AccessList(IdSet);

impl View for AccessList {
    type V = Set<Seq<u8>>;

    closed spec fn view(&self) -> Set<Seq<u8>> {
        self.0@
    }
}

impl Default for AccessList {
    fn default() -> (list: Self)
        ensures
            list@ == Set::<Seq<u8>>::empty(),
    {
        AccessList(IdSet::new())
    }
}

impl AccessList {
    /// What [`AccessList::allows`] answers for a set, a mode and an info-hash.
    pub open spec fn allowed(
        listed: Set<Seq<u8>>,
        mode: AccessListMode,
        info_hash: Seq<u8>,
    ) -> bool {
        match mode {
            AccessListMode::Require => listed.contains(info_hash),
            AccessListMode::Forbid => !listed.contains(info_hash),
            AccessListMode::Ignore => true,
        }
    }

    /// Reads one line of the list file: forty hexadecimal digits in lower
    /// case. An odd length is refused first, then a length other than forty,
    /// then the first byte that is no such digit.
    pub fn parse_info_hash(line: String) -> (parsed: Result<[u8; 20], InfoHashParseError>)
        ensures
            parsed is Ok <==> is_info_hash_line(line@),
            match parsed {
                Ok(bytes) => bytes@ == line_info_hash(line@),
                Err(InfoHashParseError::OddLength) => encode_utf8(line@).len() % 2 == 1,
                Err(InfoHashParseError::InvalidLength) => encode_utf8(line@).len() % 2 == 0
                    && encode_utf8(line@).len() != 40,
                Err(InfoHashParseError::InvalidCharacter { index }) => encode_utf8(line@).len()
                    == 40 && crate::hex::first_non_lower_hex_digit(
                    encode_utf8(line@),
                    index as int,
                ),
            },
    {
        parse_info_hash_bytes(line.as_str().as_bytes())
    }

    /// Replaces the list by the info-hashes that `lines` spell, one to a
    /// line. If a line is not an info-hash, the first such line is reported
    /// and the list stays as it was: a reader never meets a list that holds
    /// some of the new lines only.
    pub fn update_from_lines(&mut self, lines: &Vec<String>) -> (updated: Result<
        (),
        AccessListError,
    >)
        ensures
            updated is Ok <==> forall|i: int|
                0 <= i < lines@.len() ==> is_info_hash_line(#[trigger] lines@[i]@),
            updated is Ok ==> final(self)@ == listed_info_hashes(lines@, lines@.len() as int),
            updated is Err ==> final(self)@ == old(self)@,
            updated matches Err(AccessListError::MalformedLine { line, cause }) ==> {
                &&& line < lines@.len()
                &&& !is_info_hash_line(lines@[line as int]@)
                &&& forall|j: int| 0 <= j < line ==> is_info_hash_line(#[trigger] lines@[j]@)
                &&& AccessList::parse_info_hash_outcome(lines@[line as int]@, cause)
            },
    {
        let mut new_list = IdSet::new();
        let mut i: usize = 0;
        while i < lines.len()
            invariant
                i <= lines@.len(),
                forall|j: int| 0 <= j < i ==> is_info_hash_line(#[trigger] lines@[j]@),
                new_list@ == listed_info_hashes(lines@, i as int),
            decreases lines@.len() - i,
        {
            match parse_info_hash_bytes(lines[i].as_str().as_bytes()) {
                Ok(bytes) => {
                    let _ = new_list.insert(bytes);
                    assert(new_list@ =~= listed_info_hashes(lines@, i + 1)) by {
                        let hash = line_info_hash(lines@[i as int]@);
                        assert forall|h: Seq<u8>|
                            listed_info_hashes(lines@, i + 1).contains(h) implies new_list@.contains(
                            h,
                        ) by {
                            let k = choose|k: int|
                                0 <= k < i + 1 && k < lines@.len() && #[trigger] line_info_hash(
                                    lines@[k]@,
                                ) == h;
                            if k < i {
                                assert(listed_info_hashes(lines@, i as int).contains(h));
                            }
                        }
                    }
                },
                Err(cause) => {
                    return Err(AccessListError::MalformedLine { line: i, cause });
                },
            }
            i += 1;
        }
        self.0 = new_list;
        Ok(())
    }

    /// That `cause` is the reason for which `line` is not an info-hash.
    pub open spec fn parse_info_hash_outcome(line: Seq<char>, cause: InfoHashParseError) -> bool {
        match cause {
            InfoHashParseError::OddLength => encode_utf8(line).len() % 2 == 1,
            InfoHashParseError::InvalidLength => encode_utf8(line).len() % 2 == 0 && encode_utf8(
                line,
            ).len() != 40,
            InfoHashParseError::InvalidCharacter { index } => encode_utf8(line).len() == 40
                && crate::hex::first_non_lower_hex_digit(encode_utf8(line), index as int),
        }
    }

    /// Whether the tracker serves the torrent: in `Require` mode if the list
    /// holds its info-hash, in `Forbid` mode if it does not, in `Ignore` mode
    /// always.
    pub fn allows(&self, list_type: AccessListMode, info_hash_bytes: &[u8; 20]) -> (allowed: bool)
        ensures
            allowed == AccessList::allowed(self@, list_type, info_hash_bytes@),
    {
        match list_type {
            AccessListMode::Require => self.0.contains(info_hash_bytes),
            AccessListMode::Forbid => !self.0.contains(info_hash_bytes),
            AccessListMode::Ignore => true,
        }
    }
}

/// Reloads the access list from the lines of its file.
///
/// In `Ignore` mode the lines are not looked at and the list stays as it is.
/// In the other modes the list is replaced, or, if a line is not an
/// info-hash, left as it was and the first such line reported.
pub fn update_access_list(
    config: &AccessListConfig,
    access_list: &mut AccessList,
    lines: &Vec<String>,
) -> (updated: Result<(), AccessListError>)
    ensures
        config.mode is Ignore ==> updated is Ok && final(access_list)@ == old(access_list)@,
        !(config.mode is Ignore) ==> {
            &&& updated is Ok <==> forall|i: int|
                0 <= i < lines@.len() ==> is_info_hash_line(#[trigger] lines@[i]@)
            &&& updated is Ok ==> final(access_list)@ == listed_info_hashes(
                lines@,
                lines@.len() as int,
            )
            &&& updated is Err ==> final(access_list)@ == old(access_list)@
            &&& updated matches Err(AccessListError::MalformedLine { line, cause }) ==> {
                &&& line < lines@.len()
                &&& !is_info_hash_line(lines@[line as int]@)
                &&& forall|j: int| 0 <= j < line ==> is_info_hash_line(#[trigger] lines@[j]@)
                &&& AccessList::parse_info_hash_outcome(lines@[line as int]@, cause)
            }
        },
{
    match config.mode {
        AccessListMode::Require | AccessListMode::Forbid => access_list.update_from_lines(lines),
        AccessListMode::Ignore => Ok(()),
    }
}

} // verus!

//! Loading the cache and looking icon names up in it.
//!
//! The file layout (all integers big-endian):
//! - header: `major_version: u16`, `minor_version: u16`,
//!   `hash_table_offset: u32`, `directory_list_offset: u32`;
//! - at `directory_list_offset`: `count: u32`, then `count` offsets of
//!   null-terminated directory name strings;
//! - at `hash_table_offset`: `bucket_count: u32`, then `bucket_count` slot
//!   offsets, each the head of a singly linked chain of bucket nodes
//!   (`next: u32`, `name_offset: u32`, `image_list_offset: u32`), where a
//!   stored offset of 0 marks an empty slot or the end of a chain;
//! - an image list: `count: u32`, then `count` 8-byte records whose first
//!   two bytes hold an index into the directory list.

use crate::arena::{
    can_read16,
    can_read32,
    card16_at,
    card32_at,
    cstr_bytes,
    cstr_ok,
    cstring_matches,
    decoded,
    read_card16_from,
    read_card32_from,
    read_cstring_from,
};
use crate::hash::{hash_bytes, hash_spec};
use vstd::prelude::*;
use vstd::string::StringSliceAdditionalSpecFns;

verus! {

/// Why a cache file was rejected at load time.
#[derive(Debug, Clone, Copy, PartialEq, Eq)]
pub enum CacheError {
    /// The major version in the header is not the supported one.
    UnsupportedVersion,
    /// A required structural read (header, bucket count, directory count or
    /// a directory entry) went out of bounds, or the bucket count is zero.
    CorruptFormat,
}

/// The four header fields lie within the buffer.
pub open spec fn header_ok(data: Seq<u8>) -> bool {
    &&& can_read16(data, 0)
    &&& can_read16(data, 2)
    &&& can_read32(data, 4)
    &&& can_read32(data, 8)
}

/// The major version stored in the header.
pub open spec fn spec_major_version(data: Seq<u8>) -> u16 {
    card16_at(data, 0)
}

/// The hash-table offset stored in the header.
pub open spec fn spec_hash_offset(data: Seq<u8>) -> u32 {
    card32_at(data, 4)
}

/// The directory-list offset stored in the header.
pub open spec fn spec_dir_list_offset(data: Seq<u8>) -> u32 {
    card32_at(data, 8)
}

/// Only major version 1 is supported; the minor version is read but not
/// enforced.
pub open spec fn version_ok(data: Seq<u8>) -> bool {
    spec_major_version(data) == 1
}

/// The bucket count stored at the hash-table offset.
pub open spec fn spec_n_buckets(data: Seq<u8>) -> u32 {
    card32_at(data, spec_hash_offset(data) as int)
}

/// The directory count stored at the directory-list offset.
pub open spec fn spec_n_dirs(data: Seq<u8>) -> u32 {
    card32_at(data, spec_dir_list_offset(data) as int)
}

/// The position of the `i`-th directory-list entry.
pub open spec fn dir_entry_addr(data: Seq<u8>, i: int) -> int {
    spec_dir_list_offset(data) + 4 + 4 * i
}

/// The offset stored in the `i`-th directory-list entry.
pub open spec fn spec_dir_entry_off(data: Seq<u8>, i: int) -> u32 {
    card32_at(data, dir_entry_addr(data, i))
}

/// The structural reads that loading requires: bucket count (nonzero),
/// directory count, and every directory-list entry.
pub open spec fn structure_ok(data: Seq<u8>) -> bool {
    &&& can_read32(data, spec_hash_offset(data) as int)
    &&& spec_n_buckets(data) > 0
    &&& can_read32(data, spec_dir_list_offset(data) as int)
    &&& forall|i: int| 0 <= i < spec_n_dirs(data) ==> can_read32(data, dir_entry_addr(data, i))
}

/// A buffer from which a cache loads successfully.
pub open spec fn loadable(data: Seq<u8>) -> bool {
    header_ok(data) && version_ok(data) && structure_ok(data)
}

/// A directory name is stored at `off`: a nonempty null-terminated string
/// lies there.  Any such byte run decodes, lossily where it is not valid
/// UTF-8.
pub open spec fn dir_decodable(data: Seq<u8>, off: int) -> bool {
    cstr_ok(data, off)
}

/// The decoded directory name at `off`, lossy where its bytes are not
/// valid UTF-8.
pub open spec fn dir_name_at(data: Seq<u8>, off: int) -> Seq<char> {
    decoded(cstr_bytes(data, off))
}

/// Some entry among the first `n` of the directory list stores `off`, and
/// the name there decodes.
pub open spec fn dir_known_upto(data: Seq<u8>, n: int, off: u32) -> bool {
    exists|i: int|
        0 <= i < n && #[trigger] spec_dir_entry_off(data, i) == off && dir_decodable(
            data,
            off as int,
        )
}

/// `off` is a key of the directory table: some directory-list entry stores
/// it and the name there decodes.
pub open spec fn dir_known(data: Seq<u8>, off: u32) -> bool {
    dir_known_upto(data, spec_n_dirs(data) as int, off)
}

/// Some row of the loaded directory table carries the key `off`.
pub open spec fn table_has(t: Seq<(u32, String)>, off: u32) -> bool {
    exists|k: int| 0 <= k < t.len() && (#[trigger] t[k]).0 == off
}

/// The node at `node` stores the offset of a string equal to `name`.
pub open spec fn node_name_matches(data: Seq<u8>, node: int, name: Seq<u8>) -> bool {
    can_read32(data, node + 4) && {
        let noff = card32_at(data, node + 4) as int;
        cstr_ok(data, noff) && cstr_bytes(data, noff) == name
    }
}

/// Walks a bucket chain from `node`, for at most `fuel` nodes, and returns
/// the offset of the first node whose stored name equals `name`.  A node
/// offset of 0 or an unreadable field ends the chain.
pub open spec fn chain_find(data: Seq<u8>, node: u32, name: Seq<u8>, fuel: nat) -> Option<u32>
    decreases fuel,
{
    if fuel == 0 {
        None
    } else if node == 0 || !can_read32(data, node as int + 4) {
        None
    } else if node_name_matches(data, node as int, name) {
        Some(node)
    } else if !can_read32(data, node as int) {
        None
    } else {
        chain_find(data, card32_at(data, node as int), name, (fuel - 1) as nat)
    }
}

/// The directory names contributed by record `i` of an image list: the
/// record's directory index is resolved through the directory list to an
/// offset, and that offset's name is taken from the directory table.  A
/// record whose reads fail or whose offset is unknown contributes nothing.
pub open spec fn record_dirs(data: Seq<u8>, list_off: int, i: int) -> Set<Seq<char>> {
    if can_read16(data, list_off + 4 + 8 * i) {
        let di = card16_at(data, list_off + 4 + 8 * i) as int;
        let ea = spec_dir_list_offset(data) + 4 + 4 * di;
        if can_read32(data, ea) {
            let doff = card32_at(data, ea);
            if dir_known(data, doff) {
                set![dir_name_at(data, doff as int)]
            } else {
                Set::empty()
            }
        } else {
            Set::empty()
        }
    } else {
        Set::empty()
    }
}

/// The union of the directory names contributed by the first `n` records of
/// the image list at `list_off`.
pub open spec fn list_dirs(data: Seq<u8>, list_off: int, n: int) -> Set<Seq<char>>
    decreases n,
{
    if n <= 0 {
        Set::empty()
    } else {
        list_dirs(data, list_off, n - 1).union(record_dirs(data, list_off, n - 1))
    }
}

/// The set of directory names a lookup of `name` (given as its bytes)
/// yields on the buffer `data`, or `None` when no chain node matches or a
/// structural read fails along the way.
pub open spec fn lookup_result(data: Seq<u8>, name: Seq<u8>) -> Option<Set<Seq<char>>> {
    let slot = spec_hash_offset(data) + 4 + 4 * (hash_spec(name) as int % spec_n_buckets(
        data,
    ) as int);
    if !can_read32(data, slot) {
        None
    } else {
        match chain_find(data, card32_at(data, slot), name, data.len()) {
            None => None,
            Some(node) => {
                if !can_read32(data, node as int + 8) {
                    None
                } else {
                    let list_off = card32_at(data, node as int + 8) as int;
                    if !can_read32(data, list_off) {
                        None
                    } else {
                        Some(list_dirs(data, list_off, card32_at(data, list_off) as int))
                    }
                }
            },
        }
    }
}

/// The set of views of the strings in `dirs`.
pub open spec fn dir_set(dirs: Seq<String>) -> Set<Seq<char>> {
    Set::new(|n: Seq<char>| exists|k: int| 0 <= k < dirs.len() && dirs[k]@ == n)
}

/// A loaded icon-theme cache: the raw bytes of the file, the header fields,
/// and the decoded directory table.  Immutable once constructed; its view
/// is the byte sequence of the file.
pub struct GtkIconCache {
    data: Vec<u8>,
    hash_offset: u32,
    directory_list_offset: u32,
    n_buckets: u32,
    dir_names: Vec<(u32, String)>,
}

impl View for GtkIconCache {
    type V = Seq<u8>;

    closed spec fn view(&self) -> Seq<u8> {
        self.data@
    }
}

impl GtkIconCache {
    #[verifier::type_invariant]
    spec fn inv(self) -> bool {
        &&& loadable(self.data@)
        &&& self.hash_offset == spec_hash_offset(self.data@)
        &&& self.directory_list_offset == spec_dir_list_offset(self.data@)
        &&& self.n_buckets == spec_n_buckets(self.data@)
        &&& forall|k: int|
            0 <= k < self.dir_names@.len() ==> dir_known(
                self.data@,
                (#[trigger] self.dir_names@[k]).0,
            ) && self.dir_names@[k].1@ == dir_name_at(self.data@, self.dir_names@[k].0 as int)
        &&& forall|off: u32| #[trigger] dir_known(self.data@, off) ==> table_has(self.dir_names@, off)
    }

    /// Decodes the header and the directory table of a cache file and
    /// returns the loaded cache.  Fails with `UnsupportedVersion` when the
    /// header is readable but its major version is not 1, and with
    /// `CorruptFormat` when a required structural read goes out of bounds
    /// or the bucket count is zero; a directory entry whose name is out of
    /// bounds, unterminated or empty is skipped, not an error.
    pub fn load_cache(data: Vec<u8>) -> (r: Result<Self, CacheError>)
        ensures
            match r {
                Ok(cache) => loadable(data@) && cache@ == data@,
                Err(CacheError::UnsupportedVersion) => header_ok(data@) && !version_ok(data@),
                Err(CacheError::CorruptFormat) => !header_ok(data@) || (version_ok(data@)
                    && !structure_ok(data@)),
            },
    {
        let major = match read_card16_from(data.as_slice(), 0) {
            Some(v) => v,
            None => { return Err(CacheError::CorruptFormat) },
        };
        let _minor = match read_card16_from(data.as_slice(), 2) {
            Some(v) => v,
            None => { return Err(CacheError::CorruptFormat) },
        };
        let hash_offset = match read_card32_from(data.as_slice(), 4) {
            Some(v) => v,
            None => { return Err(CacheError::CorruptFormat) },
        };
        let directory_list_offset = match read_card32_from(data.as_slice(), 8) {
            Some(v) => v,
            None => { return Err(CacheError::CorruptFormat) },
        };
        if major != 1 {
            return Err(CacheError::UnsupportedVersion);
        }
        let n_buckets = match read_card32_from(data.as_slice(), hash_offset as u64) {
            Some(v) => v,
            None => { return Err(CacheError::CorruptFormat) },
        };
        if n_buckets == 0 {
            return Err(CacheError::CorruptFormat);
        }
        let n_dirs = match read_card32_from(data.as_slice(), directory_list_offset as u64) {
            Some(v) => v,
            None => { return Err(CacheError::CorruptFormat) },
        };
        let mut dir_names: Vec<(u32, String)> = Vec::new();
        let mut i: u32 = 0;
        while i < n_dirs
            invariant
                header_ok(data@),
                version_ok(data@),
                hash_offset == spec_hash_offset(data@),
                directory_list_offset == spec_dir_list_offset(data@),
                can_read32(data@, spec_hash_offset(data@) as int),
                n_buckets == spec_n_buckets(data@),
                n_buckets > 0,
                can_read32(data@, spec_dir_list_offset(data@) as int),
                n_dirs == spec_n_dirs(data@),
                i <= n_dirs,
                forall|j: int| 0 <= j < i ==> can_read32(data@, dir_entry_addr(data@, j)),
                forall|k: int|
                    0 <= k < dir_names@.len() ==> dir_known_upto(
                        data@,
                        i as int,
                        (#[trigger] dir_names@[k]).0,
                    ) && dir_names@[k].1@ == dir_name_at(data@, dir_names@[k].0 as int),
                forall|off: u32| #[trigger]
                    dir_known_upto(data@, i as int, off) ==> table_has(dir_names@, off),
            decreases n_dirs - i,
        {
            let addr: u64 = directory_list_offset as u64 + 4 + 4 * (i as u64);
            proof {
                assert(addr as int == dir_entry_addr(data@, i as int));
            }
            let off = match read_card32_from(data.as_slice(), addr) {
                Some(v) => v,
                None => {
                    proof {
                        assert(!can_read32(data@, dir_entry_addr(data@, i as int)));
                        assert(!structure_ok(data@));
                    }
                    return Err(CacheError::CorruptFormat)
                },
            };
            proof {
                assert(spec_dir_entry_off(data@, i as int) == off);
            }
            let ghost old_table = dir_names@;
            match read_cstring_from(data.as_slice(), off as u64) {
                Some(s) => {
                    proof {
                        assert(s@ == dir_name_at(data@, off as int));
                    }
                    dir_names.push((off, s));
                    proof {
                        assert(dir_names@.last().0 == off && dir_names@.last().1@ == dir_name_at(
                            data@,
                            off as int,
                        ));
                        assert(dir_known_upto(data@, i as int + 1, off));
                        assert forall|k: int| 0 <= k < dir_names@.len() implies dir_known_upto(
                            data@,
                            i as int + 1,
                            (#[trigger] dir_names@[k]).0,
                        ) && dir_names@[k].1@ == dir_name_at(
                            data@,
                            dir_names@[k].0 as int,
                        ) by {
                            if k < dir_names@.len() - 1 {
                                assert(dir_names@[k] == old_table[k]);
                                assert(dir_known_upto(data@, i as int, old_table[k].0));
                                let j = choose|j: int|
                                    0 <= j < i as int && #[trigger] spec_dir_entry_off(data@, j)
                                        == old_table[k].0 && dir_decodable(
                                        data@,
                                        old_table[k].0 as int,
                                    );
                                assert(dir_known_upto(data@, i as int + 1, old_table[k].0));
                            }
                        }
                        assert forall|off2: u32| #[trigger]
                            dir_known_upto(data@, i as int + 1, off2) implies table_has(
                            dir_names@,
                            off2,
                        ) by {
                            let j = choose|j: int|
                                0 <= j < i as int + 1 && #[trigger] spec_dir_entry_off(data@, j)
                                    == off2 && dir_decodable(data@, off2 as int);
                            if j < i as int {
                                assert(dir_known_upto(data@, i as int, off2));
                                let k = choose|k: int|
                                    0 <= k < old_table.len() && (#[trigger] old_table[k]).0 == off2;
                                assert((dir_names@[k]).0 == off2);
                            } else {
                                assert((dir_names@[dir_names@.len() - 1]).0 == off2);
                            }
                        }
                    }
                },
                None => {
                    proof {
                        assert(!dir_decodable(data@, off as int));
                        assert forall|k: int| 0 <= k < dir_names@.len() implies dir_known_upto(
                            data@,
                            i as int + 1,
                            (#[trigger] dir_names@[k]).0,
                        ) && dir_names@[k].1@ == dir_name_at(
                            data@,
                            dir_names@[k].0 as int,
                        ) by {
                            assert(dir_known_upto(data@, i as int, dir_names@[k].0));
                            let j = choose|j: int|
                                0 <= j < i as int && #[trigger] spec_dir_entry_off(data@, j)
                                    == dir_names@[k].0 && dir_decodable(
                                    data@,
                                    dir_names@[k].0 as int,
                                );
                            assert(dir_known_upto(data@, i as int + 1, dir_names@[k].0));
                        }
                        assert forall|off2: u32| #[trigger]
                            dir_known_upto(data@, i as int + 1, off2) implies table_has(
                            dir_names@,
                            off2,
                        ) by {
                            let j = choose|j: int|
                                0 <= j < i as int + 1 && #[trigger] spec_dir_entry_off(data@, j)
                                    == off2 && dir_decodable(data@, off2 as int);
                            assert(j < i as int);
                            assert(dir_known_upto(data@, i as int, off2));
                        }
                    }
                },
            }
            i = i + 1;
        }
        Ok(GtkIconCache { data, hash_offset, directory_list_offset, n_buckets, dir_names })
    }

    /// The hash-table offset read from the header.
    pub fn hash_table_offset(&self) -> (r: u32)
        ensures
            r == spec_hash_offset(self@),
    {
        proof {
            use_type_invariant(&*self);
        }
        self.hash_offset
    }

    /// The directory-list offset read from the header.
    pub fn directory_list_offset(&self) -> (r: u32)
        ensures
            r == spec_dir_list_offset(self@),
    {
        proof {
            use_type_invariant(&*self);
        }
        self.directory_list_offset
    }

    /// The number of hash buckets read from the file.
    pub fn n_buckets(&self) -> (r: u32)
        ensures
            r == spec_n_buckets(self@),
            r > 0,
    {
        proof {
            use_type_invariant(&*self);
        }
        self.n_buckets
    }

    /// The directory name stored for the directory-list offset `off`:
    /// `Some` exactly when some in-bounds entry of the directory list
    /// stores `off` and a nonempty null-terminated name lies there, the
    /// name decoded as UTF-8 (lossily where invalid).
    pub fn directory_name(&self, off: u32) -> (r: Option<&String>)
        ensures
            match r {
                Some(s) => dir_known(self@, off) && s@ == dir_name_at(self@, off as int),
                None => !dir_known(self@, off),
            },
    {
        proof {
            use_type_invariant(&*self);
        }
        let n = self.dir_names.len();
        let mut k: usize = 0;
        while k < n
            invariant
                self.inv(),
                k <= n,
                n == self.dir_names@.len(),
                forall|j: int| 0 <= j < k ==> (#[trigger] self.dir_names@[j]).0 != off,
            decreases n - k,
        {
            if self.dir_names[k].0 == off {
                return Some(&self.dir_names[k].1);
            }
            k = k + 1;
        }
        proof {
            if dir_known(self.data@, off) {
                assert(table_has(self.dir_names@, off));
                let j = choose|j: int|
                    0 <= j < self.dir_names@.len() && (#[trigger] self.dir_names@[j]).0 == off;
                assert(false);
            }
        }
        None
    }

    /// Looks an icon name up and returns the set of directory names
    /// recorded for it, without duplicates and in no significant order, or
    /// `None` when the name is absent (no chain node matches) or a
    /// structural read fails along the way.
    ///
    /// The result is a function of the cache's bytes and the name's bytes
    /// alone: repeated lookups of the same name on the same cache return
    /// the same set.
    pub fn lookup(&self, name: &str) -> (r: Option<Vec<String>>)
        ensures
            match r {
                Some(dirs) => {
                    &&& lookup_result(self@, name.spec_bytes()) matches Some(found) && dir_set(
                        dirs@,
                    ) == found
                    &&& forall|a: int, b: int|
                        0 <= a < b < dirs@.len() ==> (#[trigger] dirs@[a])@ != (
                        #[trigger] dirs@[b])@
                },
                None => lookup_result(self@, name.spec_bytes()) is None,
            },
    {
        proof {
            use_type_invariant(&*self);
        }
        let data = self.data.as_slice();
        let name_bytes = name.as_bytes();
        let h = hash_bytes(name_bytes);
        let bucket_index = h % self.n_buckets;
        let slot_addr: u64 = self.hash_offset as u64 + 4 + 4 * (bucket_index as u64);
        let ghost nbs = name.spec_bytes();
        proof {
            assert(slot_addr as int == spec_hash_offset(self.data@) + 4 + 4 * (hash_spec(nbs) as int
                % spec_n_buckets(self.data@) as int));
        }
        let head = match read_card32_from(data, slot_addr) {
            Some(v) => v,
            None => { return None },
        };
        let ghost target = chain_find(self.data@, head, nbs, self.data@.len());
        let mut node: u32 = head;
        let mut fuel: usize = self.data.len();
        let mut found: Option<u32> = None;
        loop
            invariant_except_break
                found is None,
                data@ == self.data@,
                name_bytes@ == nbs,
                chain_find(self.data@, node, nbs, fuel as nat) == target,
            ensures
                found == target,
                data@ == self.data@,
                name_bytes@ == nbs,
            decreases fuel,
        {
            if fuel == 0 || node == 0 {
                break ;
            }
            match read_card32_from(data, node as u64 + 4) {
                None => {
                    break ;
                },
                Some(name_off) => {
                    if cstring_matches(data, name_off as u64, name_bytes) {
                        found = Some(node);
                        break ;
                    }
                    match read_card32_from(data, node as u64) {
                        None => {
                            break ;
                        },
                        Some(next) => {
                            node = next;
                            fuel = fuel - 1;
                        },
                    }
                },
            }
        }
        let node = match found {
            Some(n) => n,
            None => { return None },
        };
        let list_off = match read_card32_from(data, node as u64 + 8) {
            Some(v) => v,
            None => { return None },
        };
        let list_len = match read_card32_from(data, list_off as u64) {
            Some(v) => v,
            None => { return None },
        };
        let mut dirs: Vec<String> = Vec::new();
        let mut i: u32 = 0;
        while i < list_len
            invariant
                self.inv(),
                data@ == self.data@,
                i <= list_len,
                dir_set(dirs@) == list_dirs(self.data@, list_off as int, i as int),
                forall|a: int, b: int|
                    0 <= a < b < dirs@.len() ==> (#[trigger] dirs@[a])@ != (#[trigger] dirs@[b])@,
            decreases list_len - i,
        {
            let ghost old_dirs = dirs@;
            let rec_addr: u64 = list_off as u64 + 4 + 8 * (i as u64);
            match read_card16_from(data, rec_addr) {
                Some(dir_index) => {
                    let ea: u64 = self.directory_list_offset as u64 + 4 + 4 * (dir_index as u64);
                    match read_card32_from(data, ea) {
                        Some(doff) => {
                            match self.directory_name(doff) {
                                Some(s) => {
                                    proof {
                                        assert(record_dirs(self.data@, list_off as int, i as int)
                                            =~= set![s@]);
                                    }
                                    if !contains_string(&dirs, s) {
                                        let s2 = s.clone();
                                        dirs.push(s2);
                                        proof {
                                            lemma_dir_set_push(old_dirs, dirs@.last());
                                            assert(dir_set(dirs@) =~= list_dirs(
                                                self.data@,
                                                list_off as int,
                                                i as int + 1,
                                            ));
                                        }
                                    } else {
                                        proof {
                                            assert(dir_set(dirs@) =~= list_dirs(
                                                self.data@,
                                                list_off as int,
                                                i as int + 1,
                                            ));
                                        }
                                    }
                                },
                                None => {
                                    proof {
                                        assert(record_dirs(self.data@, list_off as int, i as int)
                                            =~= Set::empty());
                                        assert(dir_set(dirs@) =~= list_dirs(
                                            self.data@,
                                            list_off as int,
                                            i as int + 1,
                                        ));
                                    }
                                },
                            }
                        },
                        None => {
                            proof {
                                assert(record_dirs(self.data@, list_off as int, i as int)
                                    =~= Set::empty());
                                assert(dir_set(dirs@) =~= list_dirs(
                                    self.data@,
                                    list_off as int,
                                    i as int + 1,
                                ));
                            }
                        },
                    }
                },
                None => {
                    proof {
                        assert(record_dirs(self.data@, list_off as int, i as int) =~= Set::empty());
                        assert(dir_set(dirs@) =~= list_dirs(
                            self.data@,
                            list_off as int,
                            i as int + 1,
                        ));
                    }
                },
            }
            i = i + 1;
        }
        Some(dirs)
    }
}

/// Whether some string in `v` has the same characters as `s`.
fn contains_string(v: &Vec<String>, s: &String) -> (r: bool)
    ensures
        r == dir_set(v@).contains(s@),
{
    let n = v.len();
    let mut k: usize = 0;
    while k < n
        invariant
            k <= n,
            n == v@.len(),
            forall|j: int| 0 <= j < k ==> (#[trigger] v@[j])@ != s@,
        decreases n - k,
    {
        if s.eq(&v[k]) {
            return true;
        }
        k = k + 1;
    }
    false
}

/// Appending a string to a vector adds exactly its view to the vector's
/// set of views.
proof fn lemma_dir_set_push(dirs: Seq<String>, s: String)
    ensures
        dir_set(dirs.push(s)) =~= dir_set(dirs).insert(s@),
{
    assert forall|n: Seq<char>| dir_set(dirs.push(s)).contains(n) implies dir_set(dirs).insert(
        s@,
    ).contains(n) by {
        let k = choose|k: int| 0 <= k < dirs.push(s).len() && dirs.push(s)[k]@ == n;
        if k < dirs.len() {
            assert(dirs[k]@ == n);
        } else {
            assert(n == s@);
        }
    }
    assert forall|n: Seq<char>| dir_set(dirs).insert(s@).contains(n) implies dir_set(
        dirs.push(s),
    ).contains(n) by {
        if n == s@ {
            assert(dirs.push(s)[dirs.len() as int]@ == n);
        } else {
            let k = choose|k: int| 0 <= k < dirs.len() && dirs[k]@ == n;
            assert(dirs.push(s)[k]@ == n);
        }
    }
}

} // verus!

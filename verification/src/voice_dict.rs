//! The older dictionary interface, kept as a thin layer over [`Dict`].
use vstd::prelude::*;
use crate::dict::{
    dict_layout_ok, rec_at, search_exact_defined, search_exact_spec, tail_entry_spec, Dict, SubARecord,
};

verus! {

/// 6-byte record under its older name.
pub type Rec6 = SubARecord;

/// Raw 26-byte record of sub-structure B.
#[derive(Debug, Clone, Copy, PartialEq, Eq)]
pub struct Rec26(pub [u8; 26]);

/// A dictionary behind the older interface.
#[derive(Debug)]
pub struct MiraeDict(pub Dict);

impl MiraeDict {
    /// Parse a dictionary buffer; `None` exactly when [`Dict::from_bytes`] refuses it.
    pub fn parse(data: &[u8]) -> (r: Option<Self>)
        ensures
            r is Some <==> dict_layout_ok(data@),
            r matches Some(m) ==> m.0.parsed_from(data@),
    {
        match Dict::from_bytes(data) {
            Ok(d) => Some(MiraeDict(d)),
            Err(_) => None,
        }
    }

    /// Value (`x | y << 16`) of the entry stored under exactly `query`.
    pub fn search(&self, query: &[u8]) -> (r: Option<u32>)
        requires
            search_exact_defined(self.0.base_spec(), query@, self.0.check_spec()),
        ensures
            r == match search_exact_spec(
                self.0.base_spec(),
                self.0.check_spec(),
                self.0.tail_spec(),
                query@,
            ) {
                Some(off) => match tail_entry_spec(self.0.tail_spec(), off) {
                    Some(e) => Some((e.x + 65536 * e.y) as u32),
                    None => None,
                },
                None => None,
            },
    {
        let off = match self.0.search_exact(query) {
            Some(o) => o,
            None => {
                return None;
            },
        };
        let e = match self.0.tail_entry(off) {
            Some(e) => e,
            None => {
                return None;
            },
        };
        Some(e.value())
    }

    /// The linear TAIL scan of the older interface has no counterpart: always `None`.
    pub fn lookup_arr3(&self, kps: &[u8]) -> (r: Option<u32>)
        ensures
            r is None,
    {
        None
    }

    /// Record `idx` of sub-structure A, or `None` past the end.
    pub fn rec6_at(&self, idx: u32) -> (r: Option<Rec6>)
        ensures
            r == (if idx < self.0.sub_a_records_spec().len() / 6 {
                Some(rec_at(self.0.sub_a_records_spec(), idx as int))
            } else {
                None
            }),
    {
        self.0.sub_a_record(idx as usize)
    }

    /// Record of sub-structure A that the entry under exactly `kps` points to.
    pub fn lookup_rec6(&self, kps: &[u8]) -> (r: Option<Rec6>)
        requires
            search_exact_defined(self.0.base_spec(), kps@, self.0.check_spec()),
        ensures
            r == match search_exact_spec(
                self.0.base_spec(),
                self.0.check_spec(),
                self.0.tail_spec(),
                kps@,
            ) {
                Some(off) => match tail_entry_spec(self.0.tail_spec(), off) {
                    Some(e) => if e.x < self.0.sub_a_records_spec().len() / 6 {
                        Some(rec_at(self.0.sub_a_records_spec(), e.x as int))
                    } else {
                        None
                    },
                    None => None,
                },
                None => None,
            },
    {
        let off = match self.0.search_exact(kps) {
            Some(o) => o,
            None => {
                return None;
            },
        };
        let e = match self.0.tail_entry(off) {
            Some(e) => e,
            None => {
                return None;
            },
        };
        self.0.sub_a_record(e.x as usize)
    }

    /// Number of 6-byte records.
    pub fn rec6_count(&self) -> (r: usize)
        ensures
            r == self.0.sub_a_records_spec().len() / 6,
    {
        self.0.sub_a_count()
    }

    /// Number of 26-byte records.
    pub fn rec26_count(&self) -> (r: usize)
        ensures
            r == self.0.sub_b_records_spec().len() / 26,
    {
        self.0.sub_b_count()
    }

    /// Number of trie nodes.
    pub fn c1(&self) -> (r: usize)
        ensures
            r == self.0.n1_spec(),
    {
        self.0.n1()
    }

    /// Number of TAIL bytes.
    pub fn c2(&self) -> (r: usize)
        ensures
            r == self.0.n2_spec(),
    {
        self.0.n2()
    }
}

} // verus!

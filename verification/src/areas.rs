//! The areas that a file system is given on a flash device, each made of
//! whole sectors.

use vstd::prelude::*;

verus! {

/// One sector of a flash device.
#[derive(Debug, Clone, Copy, PartialEq, Eq, Structural)]
pub struct Sector {
    pub num: usize,
    pub base: usize,
    pub size: usize,
}

/// An area as the file system is told of it.
#[derive(Debug, Clone, Copy, PartialEq, Eq, Structural)]
pub struct CNffsAreaDesc {
    pub offset: u32,
    /// Zero on the entry that ends a list.
    pub length: u32,
    pub flash_id: u8,
}

/// The list of areas as the file system takes it: sixteen entries, the
/// areas first, then entries of length zero.
#[derive(Debug, Clone, Copy)]
pub struct CNffsAreaDescArray {
    pub arr: [CNffsAreaDesc; 16],
}

/// Why an area cannot be added.
#[derive(Debug, Clone, Copy, PartialEq, Eq, Structural)]
pub enum AreaError {
    /// The area, or what is left of it, starts inside a sector.
    NotOnSectorBoundary,
    /// The area ends inside a sector.
    EndsInsideSector,
    /// The area goes on behind the last sector.
    PastEndOfDevice,
}

/// Whether the sectors from number `from` on make up the `len` bytes from
/// `base` on, and if not, why not.  Sectors that end at or before `base`
/// are passed over.
pub open spec fn cover(sectors: Seq<Sector>, from: int, base: int, len: int) -> Result<
    (),
    AreaError,
>
    decreases sectors.len() - from,
{
    if len == 0 {
        Ok(())
    } else if from < 0 || from >= sectors.len() {
        Err(AreaError::PastEndOfDevice)
    } else {
        let sector = sectors[from];
        if base >= sector.base + sector.size {
            cover(sectors, from + 1, base, len)
        } else if sector.base != base {
            Err(AreaError::NotOnSectorBoundary)
        } else if sector.size > len {
            Err(AreaError::EndsInsideSector)
        } else {
            cover(sectors, from + 1, base + sector.size, len - sector.size)
        }
    }
}

/// The entry of an area: offset and length are kept modulo 2^32.
pub open spec fn area_entry(base: usize, len: usize) -> CNffsAreaDesc {
    CNffsAreaDesc {
        offset: (base as int % 0x1_0000_0000) as u32,
        length: (len as int % 0x1_0000_0000) as u32,
        flash_id: 0,
    }
}

/// The entry that ends a list.
pub open spec fn end_entry() -> CNffsAreaDesc {
    CNffsAreaDesc { offset: 0, length: 0, flash_id: 0 }
}

/// A list of sixteen entries: `areas`, then entries that end the list.
pub open spec fn padded(areas: Seq<CNffsAreaDesc>) -> Seq<CNffsAreaDesc> {
    Seq::new(
        16,
        |i: int|
            if i < areas.len() {
                areas[i]
            } else {
                end_entry()
            },
    )
}

/// Whether every sector ends within the address space.
pub open spec fn sectors_fit(sectors: Seq<Sector>) -> bool {
    forall|i: int|
        0 <= i < sectors.len() ==> (#[trigger] sectors[i]).base + sectors[i].size <= usize::MAX
}

/// The areas of a file system on a device with given sectors.
#[derive(Debug)]
pub struct NffsAreaDesc {
    adescs: Vec<CNffsAreaDesc>,
    sectors: Vec<Sector>,
}

impl NffsAreaDesc {
    #[verifier::type_invariant]
    spec fn sectors_in_range(&self) -> bool {
        sectors_fit(self.sectors@)
    }

    /// The areas added so far, in the order in which they were added.
    pub closed spec fn areas(&self) -> Seq<CNffsAreaDesc> {
        self.adescs@
    }

    /// The sectors of the device.
    pub closed spec fn sectors(&self) -> Seq<Sector> {
        self.sectors@
    }

    /// No areas, on a device without sectors.
    pub fn empty() -> (desc: NffsAreaDesc)
        ensures
            desc.sectors() == Seq::<Sector>::empty(),
            desc.areas() == Seq::<CNffsAreaDesc>::empty(),
    {
        NffsAreaDesc { adescs: Vec::new(), sectors: Vec::new() }
    }

    /// No areas yet, on a device with the sectors `sectors`.  There is no
    /// such device where a sector ends outside the address space.
    pub fn new(sectors: Vec<Sector>) -> (desc: Option<NffsAreaDesc>)
        ensures
            desc is Some <==> sectors_fit(sectors@),
            desc matches Some(made) ==> made.sectors() == sectors@ && made.areas() == Seq::<
                CNffsAreaDesc,
            >::empty(),
    {
        let mut at: usize = 0;
        while at < sectors.len()
            invariant
                at <= sectors@.len(),
                sectors_fit(sectors@.take(at as int)),
            decreases sectors@.len() - at,
        {
            let sector = sectors[at];
            if sector.size > usize::MAX - sector.base {
                assert(sectors@[at as int].base + sectors@[at as int].size > usize::MAX);
                return None;
            }
            proof {
                let grown = sectors@.take(at + 1);
                assert forall|i: int| 0 <= i < grown.len() implies (#[trigger] grown[i]).base
                    + grown[i].size <= usize::MAX by {
                    if i < at {
                        assert(grown[i] == sectors@.take(at as int)[i]);
                    }
                }
            }
            at = at + 1;
        }
        proof {
            assert(sectors@.take(at as int) =~= sectors@);
        }
        Some(NffsAreaDesc { adescs: Vec::new(), sectors })
    }

    /// The number of areas added so far.
    pub fn len(&self) -> (count: usize)
        ensures
            count == self.areas().len(),
    {
        self.adescs.len()
    }

    /// Adds the area of `len` bytes from `base` on, which has to be made up of
    /// whole sectors of the device.
    pub fn add_area_desc(&mut self, base: usize, len: usize) -> (added: Result<(), AreaError>)
        ensures
            added == cover(old(self).sectors(), 0, base as int, len as int),
            final(self).sectors() == old(self).sectors(),
            final(self).areas() == if added is Ok {
                old(self).areas().push(area_entry(base, len))
            } else {
                old(self).areas()
            },
    {
        proof {
            use_type_invariant(&*self);
        }
        let ghost whole = cover(self.sectors@, 0, base as int, len as int);
        let mut sbase: usize = base;
        let mut slen: usize = len;
        let mut at: usize = 0;
        while at < self.sectors.len() && slen != 0
            invariant
                at <= self.sectors@.len(),
                sectors_fit(self.sectors@),
                self.sectors@ == old(self).sectors@,
                self.adescs@ == old(self).adescs@,
                whole == cover(self.sectors@, 0, base as int, len as int),
                cover(self.sectors@, at as int, sbase as int, slen as int) == whole,
            decreases self.sectors@.len() - at,
        {
            let sector = self.sectors[at];
            if sbase >= sector.base && sbase - sector.base >= sector.size {
                at = at + 1;
                continue ;
            }
            if sector.base != sbase {
                return Err(AreaError::NotOnSectorBoundary);
            }
            if sector.size > slen {
                return Err(AreaError::EndsInsideSector);
            }
            sbase = sbase + sector.size;
            slen = slen - sector.size;
            at = at + 1;
        }
        if slen != 0 {
            return Err(AreaError::PastEndOfDevice);
        }
        let offset: u64 = base as u64 % 0x1_0000_0000;
        let length: u64 = len as u64 % 0x1_0000_0000;
        let entry = CNffsAreaDesc { offset: offset as u32, length: length as u32, flash_id: 0 };
        let mut adescs: Vec<CNffsAreaDesc> = Vec::new();
        std::mem::swap(&mut self.adescs, &mut adescs);
        adescs.push(entry);
        self.adescs = adescs;
        Ok(())
    }

    /// The list of areas as the file system takes it.  There is none where
    /// fifteen areas or more were added: the list has to end with an entry
    /// of length zero.
    pub fn get_c(&self) -> (list: Option<[CNffsAreaDesc; 16]>)
        ensures
            list is Some <==> self.areas().len() < 15,
            list matches Some(entries) ==> entries@ == padded(self.areas()),
    {
        if self.adescs.len() >= 15 {
            return None;
        }
        let mut entries: [CNffsAreaDesc; 16] = [CNffsAreaDesc {
            offset: 0,
            length: 0,
            flash_id: 0,
        };16];
        let mut at: usize = 0;
        while at < self.adescs.len()
            invariant
                at <= self.adescs@.len() < 15,
                forall|i: int| 0 <= i < at ==> entries@[i] == self.adescs@[i],
                forall|i: int| at <= i < 16 ==> entries@[i] == end_entry(),
            decreases self.adescs@.len() - at,
        {
            entries[at] = self.adescs[at];
            at = at + 1;
        }
        assert(entries@ =~= padded(self.adescs@));
        Some(entries)
    }
}

} // verus!

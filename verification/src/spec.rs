//! The constants, tokens and records of the flattened device tree format.
use vstd::prelude::*;

verus! {

/// Magic number used to denote the beginning of a device tree (as a native machine number).
pub const FDT_MAGIC: u32 = 0xd00d_feed;

/// The bound on the name of a node: the zero byte that ends the name is looked for among
/// the `MAX_NODE_NAME_LEN - 1` bytes behind the token that opens the node.
pub const MAX_NODE_NAME_LEN: usize = 32;

/// Definition of the parsed phandle as a native machine number
pub type Phandle = u32;

/// An enumeration of the tokens used to separate sections within the `dt_struct` section of the FDT.
#[derive(Debug, Clone, Copy, PartialEq, Eq)]
pub enum FdtTok {
    BeginNode,
    EndNode,
    Prop,
    Nop,
    End,
}

impl FdtTok {
    /// The token that a code word of the structure block stands for, if it is one.
    pub open spec fn spec_from_u32(code: u32) -> Option<FdtTok> {
        if code == 0x1 {
            Some(FdtTok::BeginNode)
        } else if code == 0x2 {
            Some(FdtTok::EndNode)
        } else if code == 0x3 {
            Some(FdtTok::Prop)
        } else if code == 0x4 {
            Some(FdtTok::Nop)
        } else if code == 0x9 {
            Some(FdtTok::End)
        } else {
            None
        }
    }

    /// The code word that stands for this token in the structure block.
    pub open spec fn spec_code(self) -> u32 {
        match self {
            FdtTok::BeginNode => 0x1,
            FdtTok::EndNode => 0x2,
            FdtTok::Prop => 0x3,
            FdtTok::Nop => 0x4,
            FdtTok::End => 0x9,
        }
    }

    pub fn from_u32(code: u32) -> (tok: Option<FdtTok>)
        ensures
            tok == Self::spec_from_u32(code),
            tok matches Some(t) ==> t.spec_code() == code,
    {
        match code {
            0x1 => Some(FdtTok::BeginNode),
            0x2 => Some(FdtTok::EndNode),
            0x3 => Some(FdtTok::Prop),
            0x4 => Some(FdtTok::Nop),
            0x9 => Some(FdtTok::End),
            _ => None,
        }
    }

    pub fn code(self) -> (code: u32)
        ensures
            code == self.spec_code(),
            Self::spec_from_u32(code) == Some(self),
    {
        match self {
            FdtTok::BeginNode => 0x1,
            FdtTok::EndNode => 0x2,
            FdtTok::Prop => 0x3,
            FdtTok::Nop => 0x4,
            FdtTok::End => 0x9,
        }
    }
}

/// The `fdt_header` (Flattened Device Tree Header) of the format, each field as a native
/// machine number.
#[allow(non_camel_case_types)]
#[derive(Debug, Clone, Copy, PartialEq, Eq)]
pub struct fdt_header {
    pub magic: u32,
    pub totalsize: u32,
    pub off_dt_struct: u32,
    pub off_dt_strings: u32,
    pub off_mem_rsvmap: u32,
    pub version: u32,
    pub last_comp_version: u32,
    pub boot_cpuid_phys: u32,
    pub size_dt_strings: u32,
    pub size_dt_struct: u32,
}

/// The `fdt_prop_header` (Flattened Device Tree Property header) of the format, each field
/// as a native machine number.
#[allow(non_camel_case_types)]
#[derive(Debug, Clone, Copy, PartialEq, Eq)]
pub struct fdt_prop_header {
    /// Length of the property data
    pub len: u32,
    /// Offset of the property name string within the dt_strings section
    pub nameoff: u32,
}

/// An entry of the memory reservation block, each field as a native machine number.
#[allow(non_camel_case_types)]
#[derive(Debug, Clone, Copy, PartialEq, Eq)]
pub struct fdt_reserve_entry {
    /// Starting address of the reserved memory region
    pub address: u64,
    /// Size of the reserved memory region
    pub size: u64,
}

/// Size in bytes of the header at the start of a blob.
pub const FDT_HEADER_SIZE: usize = 40;

/// Size in bytes of the header that follows a property token.
pub const FDT_PROP_HEADER_SIZE: usize = 8;

/// Size in bytes of an entry of the memory reservation block.
pub const FDT_RESERVE_ENTRY_SIZE: usize = 16;

} // verus!

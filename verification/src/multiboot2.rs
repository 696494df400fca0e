//! The layout of a Multiboot 2 header.
use vstd::prelude::*;

verus! {

/// The architecture a Multiboot 2 header is for.
#[derive(Copy, Clone, Debug, PartialEq, Eq, Structural)]
pub enum Arch {
    X86,
    Mips,
}

impl Arch {
    /// The architecture's number in the header.
    pub fn id(self) -> (r: u32)
        ensures
            r == match self {
                Arch::X86 => 0u32,
                Arch::Mips => 4u32,
            },
    {
        match self {
            Arch::X86 => 0,
            Arch::Mips => 4,
        }
    }
}

/// Types of Multiboot tags.
#[derive(Copy, Clone, Debug, PartialEq, Eq, Structural)]
pub enum TagType {
    /// The tag that ends the list of tags.
    End,
    /// The command line passed to the bootloader.
    CommandLine,
    BootloaderName,
    Modules,
    BasicMemInfo,
    BiosBootDev,
    MemoryMap,
    VbeInfo,
    FramebufferInfo,
    ElfSections,
    ApmTable,
}

/// The number of each tag type in the header.
pub open spec fn tag_type_id(t: TagType) -> u32 {
    match t {
        TagType::End => 0,
        TagType::CommandLine => 1,
        TagType::BootloaderName => 2,
        TagType::Modules => 3,
        TagType::BasicMemInfo => 4,
        TagType::BiosBootDev => 5,
        TagType::MemoryMap => 6,
        TagType::VbeInfo => 7,
        TagType::FramebufferInfo => 8,
        TagType::ElfSections => 9,
        TagType::ApmTable => 10,
    }
}

impl TagType {
    /// Returns the tag type's number in the header.
    pub fn id(self) -> (r: u32)
        ensures
            r == tag_type_id(self),
            r == match self {
                TagType::End => 0u32,
                TagType::CommandLine => 1u32,
                TagType::BootloaderName => 2u32,
                TagType::Modules => 3u32,
                TagType::BasicMemInfo => 4u32,
                TagType::BiosBootDev => 5u32,
                TagType::MemoryMap => 6u32,
                TagType::VbeInfo => 7u32,
                TagType::FramebufferInfo => 8u32,
                TagType::ElfSections => 9u32,
                TagType::ApmTable => 10u32,
            },
    {
        match self {
            TagType::End => 0,
            TagType::CommandLine => 1,
            TagType::BootloaderName => 2,
            TagType::Modules => 3,
            TagType::BasicMemInfo => 4,
            TagType::BiosBootDev => 5,
            TagType::MemoryMap => 6,
            TagType::VbeInfo => 7,
            TagType::FramebufferInfo => 8,
            TagType::ElfSections => 9,
            TagType::ApmTable => 10,
        }
    }
}

/// Each tag type has the number that the Multiboot 2 specification gives it:
/// the end tag 0, the command line 1, the bootloader name 2, the modules 3,
/// the basic memory information 4, the BIOS boot device 5, the memory map 6,
/// the VBE information 7, the framebuffer information 8, the ELF sections 9
/// and the APM table 10. No two tag types share a number.
pub proof fn law_tag_type_ids(t: TagType, u: TagType)
    ensures
        tag_type_id(TagType::End) == 0,
        tag_type_id(TagType::CommandLine) == 1,
        tag_type_id(TagType::BootloaderName) == 2,
        tag_type_id(TagType::Modules) == 3,
        tag_type_id(TagType::BasicMemInfo) == 4,
        tag_type_id(TagType::BiosBootDev) == 5,
        tag_type_id(TagType::MemoryMap) == 6,
        tag_type_id(TagType::VbeInfo) == 7,
        tag_type_id(TagType::FramebufferInfo) == 8,
        tag_type_id(TagType::ElfSections) == 9,
        tag_type_id(TagType::ApmTable) == 10,
        tag_type_id(t) <= 10,
        t != u ==> tag_type_id(t) != tag_type_id(u),
{
}

/// A Multiboot tag: its type and length.
#[derive(Debug)]
pub struct Tag {
    ty: TagType,
    len: u32,
}

/// A Multiboot 2 header.
pub struct Header {
    magic: u32,
    arch: Arch,
    header_length: u32,
    checksum: u32,
    end_tag: Tag,
}

} // verus!

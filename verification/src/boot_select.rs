//! Choosing what to boot from a virtio block device: the default entry of
//! the Boot Loader Specification where it loads, else the EFI boot loader.
use vstd::prelude::*;
use crate::block::{self, init_outcome, sized, SectorRead, VirtioMMIOBlockDevice, VirtioTransport, VIRTIO_SUBSYSTEM_BLOCK};
use crate::bootinfo::Info;
use crate::bytes::le;
use crate::bzimage::{self, Kernel};
use crate::fat::{self, boot_geometry, FatType, Filesystem, Node, Read};
use crate::fat::directory::{root_pos, walk};
use crate::loader::{self, entry_directs, entry_outcome, load_default_entry, loader_conf_path};
use crate::mem::PhysicalMemory;
use crate::part::{self, efi_partition, find_efi_partition};
use crate::pe::{self, load_address, pe_covered, pe_loads, pe_parse, Loader, MACHINE_X86_64, PE_HEADER_BYTES};

verus! {

/// The stage at which booting from a device failed, with its error.
#[derive(Debug)]
pub enum BootError {
    Virtio(block::Error),
    Partition(part::Error),
    Fat(fat::Error),
    Pe(pe::Error),
}

/// What to boot: a Linux kernel, loaded and with its zero page filled, or
/// an EFI executable, loaded at `load_addr` and `size` bytes long, to be
/// entered at `entry`.
pub enum BootChoice {
    Kernel(Kernel),
    Efi { entry: u64, load_addr: u64, size: u64 },
}

/// The path of the EFI boot loader, `\EFI\BOOT\BOOTX64.EFI`.
pub open spec fn efi_boot_path() -> Seq<u8> {
    seq![92u8, 69, 70, 73, 92, 66, 79, 79, 84, 92, 66, 79, 79, 84, 88, 54, 52, 46, 69, 70, 73]
}

/// What bringing up the block device behind `t` answers, where the
/// transport states its answers.
pub open spec fn init_answer<T: VirtioTransport>(t: T) -> Option<Result<(), block::Error>> {
    match t.device_check(VIRTIO_SUBSYSTEM_BLOCK) {
        None => None,
        Some(Err(e)) => Some(Err(e)),
        Some(Ok(())) => match (t.offered_features(), t.negotiated_status(), t.queue_max_size()) {
            (Some(f), Some(s), Some(q)) => Some(init_outcome(Ok(()), f, s, q)),
            _ => None,
        },
    }
}

/// The filesystem on the EFI system partition of `disk`, laid out as its
/// boot sector says, where the partition table names one and its boot
/// sector describes a layout.
pub open spec fn partition_fs<'a, D: SectorRead>(disk: &'a D) -> Option<Filesystem<'a, D>> {
    match efi_partition(disk) {
        Ok((start, last)) => match boot_geometry(disk.sector(start)) {
            Some(g) => Some(Filesystem::mounted_fs(disk, start, last, g)),
            None => None,
        },
        Err(_) => None,
    }
}

/// What `walk` gives for `path` from the root of `fs`.
pub open spec fn lookup_path<'a, D: SectorRead>(fs: &'a Filesystem<'a, D>, path: Seq<u8>) -> Result<Node<'a, D>, fat::Error> {
    walk(fs, root_pos(fs.geometry()).unwrap(), path)
}

/// Whether the EFI executable that `f` holds loads, at its preferred base
/// or else at `load_base`, as `(entry, load_addr, size)`: its header parses
/// and every part of the image lies within the file and the image.
pub open spec fn efi_image_loads<'a, D: SectorRead>(f: fat::File<'a, D>, load_base: u64, entry: u64, load_addr: u64, size: u64) -> bool {
    let c = f.content();
    let d = c.subrange(0, PE_HEADER_BYTES as int);
    &&& PE_HEADER_BYTES <= c.len()
    &&& pe_parse(d, MACHINE_X86_64) matches Ok(info) && {
        &&& pe_covered(c, d, info)
        &&& pe_loads(c, d, info, load_address(info, load_base))
        &&& load_addr == load_address(info, load_base)
        &&& entry == load_addr + info.entry_point
        &&& size == info.image_size
    }
}

/// Whether `r` is what booting from filesystem `fs` may answer, EFI
/// executables loaded at `load_base`: a kernel comes from the default
/// entry, which `loader.conf` selects, an EFI executable from
/// `\EFI\BOOT\BOOTX64.EFI`, where a parsed PE header places it; and, where
/// `fs` is sound, as `choice_outcome` says.
pub open spec fn fs_outcome<'a, D: SectorRead>(
    fs: Filesystem<'a, D>,
    load_base: u64,
    boot: Option<Seq<u8>>,
    mm: Option<Seq<crate::bootinfo::MemoryEntry>>,
    r: Result<BootChoice, BootError>,
) -> bool {
    &&& r matches Ok(BootChoice::Kernel(k)) ==> {
        let h = k.params.hdr;
        &&& k.params.wf()
        &&& h.boot_flag == bzimage::BOOT_FLAG
        &&& h.header == bzimage::HDRS_MAGIC
        &&& h.type_of_loader == 0xff
        &&& h.code32_start == bzimage::KERNEL_LOCATION
        &&& h.cmd_line_ptr == bzimage::CMDLINE_START
        &&& lookup_path(&fs, loader_conf_path()) is Ok
        &&& lookup_path(&fs, loader_conf_path())->Ok_0 is File
        &&& exists|epath: Seq<u8>, ef: fat::File<'a, D>, n: int| #[trigger] entry_directs(&fs, epath, ef, n)
    }
    &&& r matches Ok(BootChoice::Efi { entry, load_addr, size }) ==> (lookup_path(&fs, efi_boot_path()) matches Ok(
        Node::File(f),
    ) && {
        let c = f.content();
        &&& exists|d: Seq<u8>|
            {
                &&& d.len() == PE_HEADER_BYTES
                &&& #[trigger] pe_parse(d, MACHINE_X86_64) matches Ok(info)
                &&& load_addr == load_address(info, load_base)
                &&& entry == load_addr + info.entry_point
                &&& size == info.image_size
            }
        &&& PE_HEADER_BYTES <= c.len() ==> {
            &&& pe_parse(c.subrange(0, PE_HEADER_BYTES as int), MACHINE_X86_64) matches Ok(info)
            &&& load_addr == load_address(info, load_base)
            &&& entry == load_addr + info.entry_point
            &&& size == info.image_size
        }
    })
    &&& r matches Err(BootError::Pe(_)) ==> (lookup_path(&fs, efi_boot_path()) matches Ok(Node::File(_)))
    &&& choice_outcome(fs, load_base, boot, mm, r)
}

/// Whether `r` is what booting from `disk` may answer, EFI executables
/// loaded at `load_base`, with boot command line `boot` and memory map
/// `mm` where the boot protocol states them: the EFI system partition is
/// looked up in the GPT partition table, and the filesystem on it brought
/// up (see `fs_outcome` for what follows).
pub open spec fn disk_outcome<'a, D: SectorRead>(
    disk: &'a D,
    load_base: u64,
    boot: Option<Seq<u8>>,
    mm: Option<Seq<crate::bootinfo::MemoryEntry>>,
    r: Result<BootChoice, BootError>,
) -> bool {
    let all = forall|s: u64| #[trigger] disk.reads(s);
    let part = efi_partition(disk);
    &&& !(r matches Err(BootError::Virtio(_)))
    &&& r matches Err(BootError::Partition(e)) ==> e == part::Error::BlockError || part == Err::<(u64, u64), part::Error>(e)
    &&& all && part is Err ==> r == Err::<BootChoice, BootError>(BootError::Partition(part->Err_0))
    &&& (r matches Err(BootError::Partition(_))) || part is Ok
    &&& part matches Ok((s, l)) ==> (all && s <= l && boot_geometry(disk.sector(s)) is None ==> r == Err::<
        BootChoice,
        BootError,
    >(BootError::Fat(fat::Error::Unsupported)))
    &&& part matches Ok((s, l)) ==> (all && s <= l && boot_geometry(disk.sector(s)) is Some && boot_geometry(
        disk.sector(s),
    )->0.fat_type == FatType::Unknown ==> r == Err::<BootChoice, BootError>(BootError::Fat(fat::Error::Unsupported)))
    &&& (r is Ok || (r matches Err(BootError::Pe(_)))) ==> partition_fs(disk) is Some
    &&& partition_fs(disk) matches Some(fs) ==> fs_outcome(fs, load_base, boot, mm, r)
}

/// What booting answers once the filesystem `fs` of the EFI system
/// partition is up, where it is sound and of a known type: the default
/// entry's kernel where that entry loads; else the EFI boot loader where
/// it loads, its lookup error where it is missing, and `NotFound` where it
/// is a directory.
pub open spec fn choice_outcome<'a, D: SectorRead>(
    fs: Filesystem<'a, D>,
    load_base: u64,
    boot: Option<Seq<u8>>,
    mm: Option<Seq<crate::bootinfo::MemoryEntry>>,
    r: Result<BootChoice, BootError>,
) -> bool {
    fs.sound() && fs.geometry().fat_type != FatType::Unknown ==> {
        &&& boot is Some && mm is Some && entry_outcome(&fs, boot->0, mm->0) == Some(Ok::<(), loader::Error>(()))
            ==> r is Ok && r->Ok_0 is Kernel
        &&& boot is Some && mm is Some && entry_outcome(&fs, boot->0, mm->0) is Some && entry_outcome(
            &fs,
            boot->0,
            mm->0,
        )->0 is Err ==> {
            &&& lookup_path(&fs, efi_boot_path()) matches Err(e) ==> r == Err::<BootChoice, BootError>(
                BootError::Fat(e),
            )
            &&& lookup_path(&fs, efi_boot_path()) is Ok && lookup_path(&fs, efi_boot_path())->Ok_0 is Directory
                ==> r == Err::<BootChoice, BootError>(BootError::Fat(fat::Error::NotFound))
            &&& lookup_path(&fs, efi_boot_path()) matches Ok(Node::File(f)) ==> forall|entry: u64, load_addr: u64, size: u64|
                f.faultless() && #[trigger] efi_image_loads(f, load_base, entry, load_addr, size) ==> r == Ok::<
                    BootChoice,
                    BootError,
                >(BootChoice::Efi { entry, load_addr, size })
        }
        &&& lookup_path(&fs, efi_boot_path()) matches Err(e) ==> (r is Ok && r->Ok_0 is Kernel) || r == Err::<
            BootChoice,
            BootError,
        >(BootError::Fat(e))
        &&& lookup_path(&fs, efi_boot_path()) matches Ok(Node::File(f)) ==> forall|entry: u64, load_addr: u64, size: u64|
            f.faultless() && #[trigger] efi_image_loads(f, load_base, entry, load_addr, size) ==> (r is Ok && r->Ok_0
            is Kernel) || r == Ok::<BootChoice, BootError>(BootChoice::Efi { entry, load_addr, size })
    }
}

/// Booting falls back to the EFI boot loader where `loader.conf` is missing
/// or is no file: no kernel is chosen then.
pub proof fn law_no_entry_no_kernel<'a, D: SectorRead>(
    disk: &'a D,
    load_base: u64,
    boot: Option<Seq<u8>>,
    mm: Option<Seq<crate::bootinfo::MemoryEntry>>,
    r: Result<BootChoice, BootError>,
)
    requires
        disk_outcome(disk, load_base, boot, mm, r),
        partition_fs(disk) is Some,
        !(lookup_path(&partition_fs(disk)->0, loader_conf_path()) matches Ok(Node::File(_))),
    ensures
        !(r matches Ok(BootChoice::Kernel(_))),
{
}

/// What the filesystem of the EFI system partition is made of.
pub proof fn lemma_partition_fs<'a, D: SectorRead>(disk: &'a D)
    ensures
        partition_fs(disk) matches Some(fs) ==> {
            &&& fs.spec_device() == disk
            &&& efi_partition(disk) == Ok::<(u64, u64), part::Error>((fs.spec_start(), fs.spec_last()))
            &&& boot_geometry(disk.sector(fs.spec_start())) == Some(fs.geometry())
        },
{
    if let Ok((start, last)) = efi_partition(disk) {
        if let Some(g) = boot_geometry(disk.sector(start)) {
            Filesystem::lemma_mounted_fs(disk, start, last, g);
        }
    }
}

/// Boots from `disk`: looks up its EFI system partition, brings up the
/// filesystem on it, and loads the default entry; where that fails, loads
/// the EFI boot loader at `load_base`.
pub fn boot_from_disk<D: SectorRead, M: PhysicalMemory, I: Info>(
    disk: &D,
    info: &I,
    load_base: u64,
    mem: &mut M,
) -> (r: Result<BootChoice, BootError>)
    requires
        sized(disk),
    ensures
        disk_outcome(disk, load_base, info.cmdline_spec(), info.memory_map(), r),
{
    proof {
        lemma_partition_fs(disk);
    }
    let (start, last) = match find_efi_partition(disk) {
        Ok(p) => p,
        Err(e) => {
            return Err(BootError::Partition(e));
        },
    };
    let mut f = Filesystem::new(disk, start, last);
    match f.init() {
        Ok(()) => {},
        Err(e) => {
            return Err(BootError::Fat(e));
        },
    }
    proof {
        Filesystem::lemma_mounted_fs(disk, start, last, f.geometry());
        Filesystem::lemma_same(f, Filesystem::mounted_fs(disk, start, last, f.geometry()));
        assert(partition_fs(disk) == Some(f));
    }
    if f.fat_type() == FatType::Unknown {
        return Err(BootError::Fat(fat::Error::Unsupported));
    }
    boot_from_fs(&f, info, load_base, mem)
}

/// Boots from filesystem `fs`: loads the default entry; where that fails,
/// loads the EFI boot loader at `load_base`.
fn boot_from_fs<D: SectorRead, M: PhysicalMemory, I: Info>(
    f: &Filesystem<'_, D>,
    info: &I,
    load_base: u64,
    mem: &mut M,
) -> (r: Result<BootChoice, BootError>)
    requires
        f.wf(),
        f.geometry().fat_type != FatType::Unknown,
    ensures
        fs_outcome(*f, load_base, info.cmdline_spec(), info.memory_map(), r),
        !(r matches Err(BootError::Virtio(_))),
        !(r matches Err(BootError::Partition(_))),
{
    match load_default_entry(f, info, mem) {
        Ok(kernel) => {
            return Ok(BootChoice::Kernel(kernel));
        },
        Err(_) => {},
    }
    let path: Vec<u8> = vec![92u8, 69, 70, 73, 92, 66, 79, 79, 84, 92, 66, 79, 79, 84, 88, 54, 52, 46, 69, 70, 73];
    assert(path@ =~= efi_boot_path());
    proof {
        crate::common::lemma_ascii_len_bounds(path@);
        fat::directory::lemma_walk_nodes(f, root_pos(f.geometry()).unwrap(), path@);
    }
    let node = match f.open_bytes(path.as_slice()) {
        Ok(n) => n,
        Err(e) => {
            return Err(BootError::Fat(e));
        },
    };
    let mut file = match node {
        Node::File(file) => file,
        Node::Directory(_) => {
            return Err(BootError::Fat(fat::Error::NotFound));
        },
    };
    assert(lookup_path(f, efi_boot_path()) == Ok::<Node<'_, D>, fat::Error>(Node::File(file)));
    let ghost f0 = file;
    let mut l = Loader::new(&mut file);
    let r = match l.load(load_base, mem) {
        Ok((entry, load_addr, size)) => Ok(BootChoice::Efi { entry, load_addr, size }),
        Err(e) => Err(BootError::Pe(e)),
    };
    proof {
        assert(f0.cursor() == 0);
        assert(f0.content().subrange(0, PE_HEADER_BYTES as int) == f0.content().subrange(
            f0.cursor(),
            f0.cursor() + PE_HEADER_BYTES,
        ));
    }
    r
}

/// Brings up the virtio block device `dev`, whose sectors `disk` reads, and
/// chooses what to boot from it (see `boot_from_disk`): EFI executables go
/// where `info` loads kernels.
pub fn choose_boot<T: VirtioTransport, D: SectorRead, I: Info, M: PhysicalMemory>(
    dev: &VirtioMMIOBlockDevice<T>,
    disk: &D,
    info: &I,
    mem: &mut M,
) -> (r: Result<BootChoice, BootError>)
    requires
        sized(disk),
    ensures
        init_answer(dev.transport) matches Some(Err(e)) ==> r == Err::<BootChoice, BootError>(BootError::Virtio(e)),
        r matches Err(BootError::Virtio(e)) ==> init_answer(dev.transport) is None || init_answer(dev.transport)
            == Some(Err::<(), block::Error>(e)),
        !(r matches Err(BootError::Virtio(_))) ==> exists|load_base: u64| #[trigger]
            disk_outcome(disk, load_base, info.cmdline_spec(), info.memory_map(), r),
{
    match dev.init() {
        Ok(()) => {},
        Err(e) => {
            return Err(BootError::Virtio(e));
        },
    }
    let load_base = info.kernel_load_addr();
    let r = boot_from_disk(disk, info, load_base, mem);
    assert(disk_outcome(disk, load_base, info.cmdline_spec(), info.memory_map(), r));
    r
}

} // verus!

//! Letting a guest hypervisor use VMX: firmware is expected to lock the
//! feature control register with VMXON enabled, as a real BIOS does.
use vstd::prelude::*;

verus! {

/// The model specific register that controls VMX.
pub const IA32_FEATURE_CONTROL: u32 = 0x3a;
/// Its lock bit: once set, the register cannot be changed until reset.
pub const FEATURE_CONTROL_LOCKED: u64 = 1;
/// Its bit that allows VMXON outside SMX.
pub const FEATURE_CONTROL_VMXON_OUTSIDE_SMX: u64 = 4;
/// The bit of CPUID leaf 1's ECX that announces VMX.
pub const CPUID_1_ECX_VMX: u32 = 32;

/// The value to write to the feature control register, given CPUID leaf
/// 1's ECX and the register's `current` value: `None` where the processor
/// has no VMX or the register is already locked, else the current value
/// with VMXON outside SMX enabled and the lock set.
pub fn feature_control_update(ecx: u32, current: u64) -> (r: Option<u64>)
    ensures
        r == (if ecx & CPUID_1_ECX_VMX == 0 || current & FEATURE_CONTROL_LOCKED != 0 {
            None
        } else {
            Some(current | FEATURE_CONTROL_VMXON_OUTSIDE_SMX | FEATURE_CONTROL_LOCKED)
        }),
        r matches Some(v) ==> v & FEATURE_CONTROL_LOCKED != 0 && v & FEATURE_CONTROL_VMXON_OUTSIDE_SMX != 0,
{
    if ecx & CPUID_1_ECX_VMX == 0 {
        return None;
    }
    if current & FEATURE_CONTROL_LOCKED != 0 {
        return None;
    }
    let v = current | FEATURE_CONTROL_VMXON_OUTSIDE_SMX | FEATURE_CONTROL_LOCKED;
    assert(v & 1 != 0 && v & 4 != 0) by (bit_vector)
        requires
            v == current | 4u64 | 1u64,
    ;
    Some(v)
}

} // verus!

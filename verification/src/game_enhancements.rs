//! Frame-rate patches for known applications.

use crate::app_image::AppImage;
use crate::error::SimulatorError;
use crate::memory::{
    accessible, guest_read, guest_write, host_address, lemma_host_address_in_bounds,
    lemma_store_word, FRAMEBUFFER_HOST_BASE, Memory, MemoryView, Width,
};
use crate::outside::{crc32, crc32_of};
use vstd::prelude::*;

verus! {

/// What tells one release of an application from all others.
#[derive(Clone, Copy, Debug, PartialEq, Eq, Structural)]
pub struct AppIdentity {
    pub file_size: usize,
    pub crc32: u32,
    pub load_base: u32,
    pub entry_point: u32,
}

/// An instruction and what to put in its place.
#[derive(Clone, Copy, Debug, PartialEq, Eq, Structural)]
pub struct InstructionPatch {
    pub address: u32,
    pub original: u32,
    pub replacement: u32,
}

/// The patches for one release of an application.
#[derive(Debug)]
pub struct FrameRateEnhancementProfile {
    pub name: &'static str,
    pub identity: AppIdentity,
    pub cpu_cycles_per_instruction: u64,
    pub patches: Vec<InstructionPatch>,
}

pub const EXTREME_DRIFT_ORIGINAL_TIMESTEP: u32 = 0x3C02_0001;

pub const EXTREME_DRIFT_HALF_TIMESTEP: u32 = 0x3402_8000;

pub const EXTREME_DRIFT_ORIGINAL_TIMER_DIVIDER: u32 = 0x2403_0014;

pub const EXTREME_DRIFT_DOUBLE_TIMER_DIVIDER: u32 = 0x2403_0028;

/// Identity of the trial release of Extreme Drift.
pub open spec fn trial_identity() -> AppIdentity {
    AppIdentity {
        file_size: 12_843_417,
        crc32: 0xFA67_BD03,
        load_base: 0x80A0_0000,
        entry_point: 0x80A0_00A0,
    }
}

/// Identity of the full release of Extreme Drift.
pub open spec fn full_identity() -> AppIdentity {
    AppIdentity {
        file_size: 15_443_327,
        crc32: 0xA2F6_F7BC,
        load_base: 0x80A0_0000,
        entry_point: 0x80AA_07F0,
    }
}

/// Half the time step and double the timer divider, at these addresses.
pub open spec fn timing_patches(timestep: u32, divider: u32) -> Seq<InstructionPatch> {
    seq![
        InstructionPatch {
            address: timestep,
            original: EXTREME_DRIFT_ORIGINAL_TIMESTEP,
            replacement: EXTREME_DRIFT_HALF_TIMESTEP,
        },
        InstructionPatch {
            address: divider,
            original: EXTREME_DRIFT_ORIGINAL_TIMER_DIVIDER,
            replacement: EXTREME_DRIFT_DOUBLE_TIMER_DIVIDER,
        },
    ]
}

/// Patches of the trial release of Extreme Drift.
pub open spec fn trial_patches() -> Seq<InstructionPatch> {
    timing_patches(0x80A1_CEC0, 0x80A1_99C0)
}

/// Patches of the full release of Extreme Drift.
pub open spec fn full_patches() -> Seq<InstructionPatch> {
    timing_patches(0x80A8_AEB0, 0x80A8_79B4)
}

/// Whether an instruction is neither in its original nor in its patched form.
pub open spec fn mismatch(patch: InstructionPatch, found: u32) -> bool {
    found != patch.original && found != patch.replacement
}

/// The first patch that cannot be applied, as the error to report.
pub open spec fn first_obstacle(
    memory: MemoryView,
    patches: Seq<InstructionPatch>,
    index: int,
) -> Option<SimulatorError>
    decreases patches.len() - index,
{
    if 0 <= index < patches.len() {
        let patch = patches[index];
        match guest_read(memory, patch.address, Width::Word) {
            None => Some(SimulatorError::UnmappedAddress { address: patch.address }),
            Some(found) => if mismatch(patch, found) {
                Some(
                    SimulatorError::PatchMismatch {
                        address: patch.address,
                        original: patch.original,
                        replacement: patch.replacement,
                        found,
                    },
                )
            } else {
                first_obstacle(memory, patches, index + 1)
            },
        }
    } else {
        None
    }
}

/// What a patch puts at its address.
pub open spec fn patch_value(patch: InstructionPatch, enabled: bool) -> u32 {
    if enabled {
        patch.replacement
    } else {
        patch.original
    }
}

/// Memory after patches were switched on or off.
pub open spec fn patched(
    memory: MemoryView,
    patches: Seq<InstructionPatch>,
    enabled: bool,
) -> MemoryView
    decreases patches.len(),
{
    if patches.len() == 0 {
        memory
    } else {
        let earlier = patched(memory, patches.drop_last(), enabled);
        match guest_write(
            earlier,
            patches.last().address,
            Width::Word,
            patch_value(patches.last(), enabled),
        ) {
            Some(after) => after,
            None => earlier,
        }
    }
}

fn timing_patch_list(timestep: u32, divider: u32) -> (patches: Vec<InstructionPatch>)
    ensures
        patches@ == timing_patches(timestep, divider),
{
    let mut patches: Vec<InstructionPatch> = Vec::new();
    patches.push(
        InstructionPatch {
            address: timestep,
            original: EXTREME_DRIFT_ORIGINAL_TIMESTEP,
            replacement: EXTREME_DRIFT_HALF_TIMESTEP,
        },
    );
    patches.push(
        InstructionPatch {
            address: divider,
            original: EXTREME_DRIFT_ORIGINAL_TIMER_DIVIDER,
            replacement: EXTREME_DRIFT_DOUBLE_TIMER_DIVIDER,
        },
    );
    assert(patches@ =~= timing_patches(timestep, divider));
    patches
}

/// The profile of the trial release of Extreme Drift.
pub fn trial_profile() -> (profile: FrameRateEnhancementProfile)
    ensures
        profile.name@ == "Extreme Drift (trial)"@,
        profile.identity == trial_identity(),
        profile.cpu_cycles_per_instruction == 1,
        profile.patches@ == trial_patches(),
{
    FrameRateEnhancementProfile {
        name: "Extreme Drift (trial)",
        identity: AppIdentity {
            file_size: 12_843_417,
            crc32: 0xFA67_BD03,
            load_base: 0x80A0_0000,
            entry_point: 0x80A0_00A0,
        },
        cpu_cycles_per_instruction: 1,
        patches: timing_patch_list(0x80A1_CEC0, 0x80A1_99C0),
    }
}

/// The profile of the full release of Extreme Drift.
pub fn full_profile() -> (profile: FrameRateEnhancementProfile)
    ensures
        profile.name@ == "Extreme Drift (full)"@,
        profile.identity == full_identity(),
        profile.cpu_cycles_per_instruction == 1,
        profile.patches@ == full_patches(),
{
    FrameRateEnhancementProfile {
        name: "Extreme Drift (full)",
        identity: AppIdentity {
            file_size: 15_443_327,
            crc32: 0xA2F6_F7BC,
            load_base: 0x80A0_0000,
            entry_point: 0x80AA_07F0,
        },
        cpu_cycles_per_instruction: 1,
        patches: timing_patch_list(0x80A8_AEB0, 0x80A8_79B4),
    }
}

/// Every profile.
pub fn frame_rate_enhancement_profiles() -> (profiles: Vec<FrameRateEnhancementProfile>)
    ensures
        profiles@.len() == 2,
        profiles@[0].name@ == "Extreme Drift (trial)"@,
        profiles@[0].identity == trial_identity(),
        profiles@[0].cpu_cycles_per_instruction == 1,
        profiles@[0].patches@ == trial_patches(),
        profiles@[1].name@ == "Extreme Drift (full)"@,
        profiles@[1].identity == full_identity(),
        profiles@[1].cpu_cycles_per_instruction == 1,
        profiles@[1].patches@ == full_patches(),
{
    let mut profiles: Vec<FrameRateEnhancementProfile> = Vec::new();
    profiles.push(trial_profile());
    profiles.push(full_profile());
    profiles
}

/// The profile for a release, where there is one.
pub fn profile_for(identity: AppIdentity) -> (profile: Option<FrameRateEnhancementProfile>)
    ensures
        profile is Some <==> identity == trial_identity() || identity == full_identity(),
        profile matches Some(profile) ==> {
            &&& profile.identity == identity
            &&& profile.cpu_cycles_per_instruction == 1
            &&& identity == trial_identity() ==> profile.name@ == "Extreme Drift (trial)"@
                && profile.patches@ == trial_patches()
            &&& identity == full_identity() ==> profile.name@ == "Extreme Drift (full)"@
                && profile.patches@ == full_patches()
        },
{
    let trial = trial_profile();
    if trial.identity == identity {
        return Some(trial);
    }
    let full = full_profile();
    if full.identity == identity {
        return Some(full);
    }
    None
}

/// What tells this application from all others.
pub open spec fn identity_of(app: AppImage) -> AppIdentity {
    AppIdentity {
        file_size: app.data@.len() as usize,
        crc32: crc32_of(app.data@),
        load_base: app.load_base,
        entry_point: app.entry_point,
    }
}

/// The patches that are known for an application.
pub open spec fn known_patches(app: Option<AppImage>) -> Option<Seq<InstructionPatch>> {
    match app {
        Some(app) => if identity_of(app) == trial_identity() {
            Some(trial_patches())
        } else if identity_of(app) == full_identity() {
            Some(full_patches())
        } else {
            None
        },
        None => None,
    }
}

/// The profile for an application, where there is one.
pub fn frame_rate_enhancement_profile(app: &AppImage) -> (profile: Option<
    FrameRateEnhancementProfile,
>)
    ensures
        profile is Some <==> identity_of(*app) == trial_identity() || identity_of(*app)
            == full_identity(),
        profile matches Some(profile) ==> {
            &&& profile.identity == identity_of(*app)
            &&& profile.cpu_cycles_per_instruction == 1
            &&& identity_of(*app) == trial_identity() ==> profile.name@
                == "Extreme Drift (trial)"@ && profile.patches@ == trial_patches()
            &&& identity_of(*app) == full_identity() ==> profile.name@ == "Extreme Drift (full)"@
                && profile.patches@ == full_patches()
        },
{
    profile_for(
        AppIdentity {
            file_size: app.data.len(),
            crc32: crc32(app.data.as_slice()),
            load_base: app.load_base,
            entry_point: app.entry_point,
        },
    )
}

/// Switches the patches of a profile on or off. Nothing changes where one of
/// them meets an instruction that it does not expect.
pub fn apply_frame_rate_enhancement(
    memory: &mut Memory,
    profile: &FrameRateEnhancementProfile,
    enabled: bool,
) -> (result: Result<(), SimulatorError>)
    requires
        old(memory).wf(),
    ensures
        final(memory).wf(),
        final(memory).heap_next == old(memory).heap_next,
        match first_obstacle(old(memory)@, profile.patches@, 0) {
            Some(error) => {
                &&& result == Err::<(), SimulatorError>(error)
                &&& final(memory)@ == old(memory)@
            },
            None => {
                &&& result is Ok
                &&& final(memory)@ == patched(old(memory)@, profile.patches@, enabled)
            },
        },
{
    let mut index: usize = 0;
    while index < profile.patches.len()
        invariant
            index <= profile.patches@.len(),
            memory.wf(),
            *memory == *old(memory),
            first_obstacle(memory@, profile.patches@, 0) == first_obstacle(
                memory@,
                profile.patches@,
                index as int,
            ),
            forall|i: int|
                0 <= i < index ==> accessible(
                    (#[trigger] profile.patches@[i]).address,
                    Width::Word,
                ),
        decreases profile.patches@.len() - index,
    {
        let patch = profile.patches[index];
        match memory.read_u32(patch.address) {
            Err(error) => {
                return Err(error);
            },
            Ok(found) => {
                if found != patch.original && found != patch.replacement {
                    return Err(
                        SimulatorError::PatchMismatch {
                            address: patch.address,
                            original: patch.original,
                            replacement: patch.replacement,
                            found,
                        },
                    );
                }
            },
        }
        index = index + 1;
    }
    let mut index: usize = 0;
    assert(profile.patches@.take(0) =~= Seq::<InstructionPatch>::empty());
    while index < profile.patches.len()
        invariant
            index <= profile.patches@.len(),
            memory.wf(),
            memory.heap_next == old(memory).heap_next,
            memory@ == patched(old(memory)@, profile.patches@.take(index as int), enabled),
            forall|i: int|
                0 <= i < profile.patches@.len() ==> accessible(
                    (#[trigger] profile.patches@[i]).address,
                    Width::Word,
                ),
        decreases profile.patches@.len() - index,
    {
        let patch = profile.patches[index];
        assert(profile.patches@.take(index + 1).drop_last() =~= profile.patches@.take(
            index as int,
        ));
        assert(accessible(profile.patches@[index as int].address, Width::Word));
        let _ = memory.write_u32(
            patch.address,
            if enabled {
                patch.replacement
            } else {
                patch.original
            },
        );
        index = index + 1;
    }
    assert(profile.patches@.take(index as int) =~= profile.patches@);
    Ok(())
}

/// Host address of the word that a patch replaces.
pub open spec fn patch_host(patch: InstructionPatch) -> int {
    host_address(patch.address, Width::Word)->0 as int
}

/// Whether every patch lies in memory and no two patches overlap.
pub open spec fn separate(patches: Seq<InstructionPatch>) -> bool {
    &&& forall|i: int|
        0 <= i < patches.len() ==> host_address(
            (#[trigger] patches[i]).address,
            Width::Word,
        ) is Some
    &&& forall|i: int, j: int|
        0 <= i < j < patches.len() ==> {
            ||| patch_host(#[trigger] patches[i]) + 4 <= patch_host(#[trigger] patches[j])
            ||| patch_host(patches[j]) + 4 <= patch_host(patches[i])
        }
}

/// Whether every patch is in its original form.
pub open spec fn all_original(memory: MemoryView, patches: Seq<InstructionPatch>) -> bool {
    forall|i: int|
        0 <= i < patches.len() ==> guest_read(
            memory,
            (#[trigger] patches[i]).address,
            Width::Word,
        ) == Some(patches[i].original)
}

/// Patches write what they are to write, and nothing else.
proof fn lemma_patched(memory: MemoryView, patches: Seq<InstructionPatch>, enabled: bool)
    requires
        memory.sized(),
        separate(patches),
    ensures
        patched(memory, patches, enabled).sized(),
        forall|i: int|
            0 <= i < patches.len() ==> patched(memory, patches, enabled).load(
                patch_host(#[trigger] patches[i]),
                Width::Word,
            ) == patch_value(patches[i], enabled),
        forall|host: int|
            (forall|i: int|
                0 <= i < patches.len() ==> !(patch_host(#[trigger] patches[i]) <= host < patch_host(
                    patches[i],
                ) + 4)) ==> #[trigger] patched(memory, patches, enabled).byte(host) == memory.byte(
                host,
            ),
    decreases patches.len(),
{
    if patches.len() > 0 {
        let earlier = patches.drop_last();
        assert forall|i: int| 0 <= i < earlier.len() implies earlier[i] == patches[i] by {}
        assert(separate(earlier)) by {
            assert forall|i: int| 0 <= i < earlier.len() implies host_address(
                (#[trigger] earlier[i]).address,
                Width::Word,
            ) is Some by {
                assert(earlier[i] == patches[i]);
            }
            assert forall|i: int, j: int| 0 <= i < j < earlier.len() implies {
                ||| patch_host(#[trigger] earlier[i]) + 4 <= patch_host(#[trigger] earlier[j])
                ||| patch_host(earlier[j]) + 4 <= patch_host(earlier[i])
            } by {
                assert(earlier[i] == patches[i] && earlier[j] == patches[j]);
            }
        }
        lemma_patched(memory, earlier, enabled);
        let last = patches.last();
        let value = patch_value(last, enabled);
        let before = patched(memory, earlier, enabled);
        assert(last == patches[patches.len() - 1]);
        lemma_host_address_in_bounds(before, last.address, Width::Word);
        lemma_store_word(before, patch_host(last), value);
        lemma_patch_step(memory, before, patched(memory, patches, enabled), patches, enabled);
    }
}

/// The step from all patches but the last to all patches.
proof fn lemma_patch_step(
    memory: MemoryView,
    before: MemoryView,
    after: MemoryView,
    patches: Seq<InstructionPatch>,
    enabled: bool,
)
    requires
        patches.len() > 0,
        separate(patches),
        forall|i: int|
            0 <= i < patches.drop_last().len() ==> before.load(
                patch_host(#[trigger] patches.drop_last()[i]),
                Width::Word,
            ) == patch_value(patches.drop_last()[i], enabled),
        forall|host: int|
            (forall|i: int|
                0 <= i < patches.drop_last().len() ==> !(patch_host(
                    #[trigger] patches.drop_last()[i],
                ) <= host < patch_host(patches.drop_last()[i]) + 4)) ==> #[trigger] before.byte(
                host,
            ) == memory.byte(host),
        after.load(patch_host(patches.last()), Width::Word) == patch_value(patches.last(), enabled),
        forall|host: int|
            !(patch_host(patches.last()) <= host < patch_host(patches.last()) + 4)
                ==> #[trigger] after.byte(host) == before.byte(host),
    ensures
        forall|i: int|
            0 <= i < patches.len() ==> after.load(
                patch_host(#[trigger] patches[i]),
                Width::Word,
            ) == patch_value(patches[i], enabled),
        forall|host: int|
            (forall|i: int|
                0 <= i < patches.len() ==> !(patch_host(#[trigger] patches[i]) <= host < patch_host(
                    patches[i],
                ) + 4)) ==> #[trigger] after.byte(host) == memory.byte(host),
{
    let earlier = patches.drop_last();
    let at = patch_host(patches.last());
    assert forall|i: int| 0 <= i < patches.len() implies after.load(
        patch_host(#[trigger] patches[i]),
        Width::Word,
    ) == patch_value(patches[i], enabled) by {
        if i < earlier.len() {
            assert(earlier[i] == patches[i]);
            assert(patches[patches.len() - 1] == patches.last());
            let other = patch_host(patches[i]);
            assert(other + 4 <= at || at + 4 <= other);
            assert(after.byte(other) == before.byte(other));
            assert(after.byte(other + 1) == before.byte(other + 1));
            assert(after.byte(other + 2) == before.byte(other + 2));
            assert(after.byte(other + 3) == before.byte(other + 3));
            assert(before.load(patch_host(earlier[i]), Width::Word) == patch_value(
                earlier[i],
                enabled,
            ));
        }
    }
    assert forall|host: int|
        (forall|i: int|
            0 <= i < patches.len() ==> !(patch_host(#[trigger] patches[i]) <= host < patch_host(
                patches[i],
            ) + 4)) implies #[trigger] after.byte(host) == memory.byte(host) by {
        assert(!(patch_host(patches[patches.len() - 1]) <= host < at + 4));
        assert forall|i: int| 0 <= i < earlier.len() implies !(patch_host(#[trigger] earlier[i])
            <= host < patch_host(earlier[i]) + 4) by {
            assert(earlier[i] == patches[i]);
        }
        assert(before.byte(host) == memory.byte(host));
    }
}

/// Memory contents are equal where all their bytes are.
proof fn lemma_same_bytes(left: MemoryView, right: MemoryView)
    requires
        left.sized(),
        right.sized(),
        forall|host: int| #[trigger] left.byte(host) == right.byte(host),
    ensures
        left == right,
{
    assert forall|i: int| 0 <= i < left.ram.len() implies left.ram[i] == right.ram[i] by {
        assert(left.byte(i) == right.byte(i));
    }
    assert forall|i: int| 0 <= i < left.framebuffer.len() implies left.framebuffer[i]
        == right.framebuffer[i] by {
        assert(left.byte(FRAMEBUFFER_HOST_BASE + i) == right.byte(FRAMEBUFFER_HOST_BASE + i));
    }
    assert(left.ram =~= right.ram);
    assert(left.framebuffer =~= right.framebuffer);
}

/// Words are equal only where their bytes are.
proof fn lemma_load_determines_bytes(left: MemoryView, right: MemoryView, at: int, host: int)
    requires
        left.load(at, Width::Word) == right.load(at, Width::Word),
        at <= host < at + 4,
    ensures
        left.byte(host) == right.byte(host),
{
    lemma_word_bytes(
        left.byte(at),
        left.byte(at + 1),
        left.byte(at + 2),
        left.byte(at + 3),
        right.byte(at),
        right.byte(at + 1),
        right.byte(at + 2),
        right.byte(at + 3),
    );
    assert(host == at || host == at + 1 || host == at + 2 || host == at + 3);
}

proof fn lemma_word_bytes(
    left0: u8,
    left1: u8,
    left2: u8,
    left3: u8,
    right0: u8,
    right1: u8,
    right2: u8,
    right3: u8,
)
    by (bit_vector)
    ensures
        left0 + 0x100 * left1 + 0x1_0000 * left2 + 0x100_0000 * left3 == right0 + 0x100 * right1
            + 0x1_0000 * right2 + 0x100_0000 * right3 ==> left0 == right0 && left1 == right1
            && left2 == right2 && left3 == right3,
{
}

/// Switching separate patches on puts every replacement in place, and switching
/// them off again restores memory.
pub proof fn law_patches_are_reversible(memory: MemoryView, patches: Seq<InstructionPatch>)
    requires
        memory.sized(),
        separate(patches),
        all_original(memory, patches),
    ensures
        ({
            let on = patched(memory, patches, true);
            &&& first_obstacle(memory, patches, 0) is None
            &&& forall|i: int|
                0 <= i < patches.len() ==> guest_read(
                    on,
                    (#[trigger] patches[i]).address,
                    Width::Word,
                ) == Some(patches[i].replacement)
            &&& first_obstacle(on, patches, 0) is None
            &&& patched(on, patches, false) == memory
        }),
{
    let on = patched(memory, patches, true);
    let off = patched(on, patches, false);
    lemma_patched(memory, patches, true);
    lemma_patched(on, patches, false);
    assert forall|i: int| 0 <= i < patches.len() implies guest_read(
        on,
        (#[trigger] patches[i]).address,
        Width::Word,
    ) == Some(patches[i].replacement) by {
        assert(on.load(patch_host(patches[i]), Width::Word) == patch_value(patches[i], true));
    }
    assert forall|host: int| #[trigger] off.byte(host) == memory.byte(host) by {
        if exists|i: int|
            0 <= i < patches.len() && patch_host(#[trigger] patches[i]) <= host < patch_host(
                patches[i],
            ) + 4 {
            let i = choose|i: int|
                0 <= i < patches.len() && patch_host(#[trigger] patches[i]) <= host < patch_host(
                    patches[i],
                ) + 4;
            assert(off.load(patch_host(patches[i]), Width::Word) == patch_value(patches[i], false));
            assert(guest_read(memory, patches[i].address, Width::Word) == Some(
                patches[i].original,
            ));
            lemma_load_determines_bytes(off, memory, patch_host(patches[i]), host);
        } else {
            assert(off.byte(host) == on.byte(host));
            assert(on.byte(host) == memory.byte(host));
        }
    }
    lemma_same_bytes(off, memory);
    lemma_no_obstacle(memory, patches, 0);
    lemma_no_obstacle(on, patches, 0);
}

proof fn lemma_no_obstacle(memory: MemoryView, patches: Seq<InstructionPatch>, index: int)
    requires
        0 <= index <= patches.len(),
        forall|i: int|
            0 <= i < patches.len() ==> {
                let found = guest_read(memory, (#[trigger] patches[i]).address, Width::Word);
                found == Some(patches[i].original) || found == Some(patches[i].replacement)
            },
    ensures
        first_obstacle(memory, patches, index) is None,
    decreases patches.len() - index,
{
    if index < patches.len() {
        assert(patches[index] == patches[index]);
        lemma_no_obstacle(memory, patches, index + 1);
    }
}

/// The patches of both known releases lie in RAM and do not overlap.
pub proof fn law_known_patches_are_separate()
    ensures
        separate(trial_patches()),
        separate(full_patches()),
{
    assert(0x80A1_CEC0u32 & 0xe000_0000 == 0x8000_0000 && 0x80A1_CEC0u32 & 0x1fff_ffff
        == 0x00A1_CEC0 && 0x80A1_99C0u32 & 0xe000_0000 == 0x8000_0000 && 0x80A1_99C0u32
        & 0x1fff_ffff == 0x00A1_99C0 && 0x80A8_AEB0u32 & 0xe000_0000 == 0x8000_0000
        && 0x80A8_AEB0u32 & 0x1fff_ffff == 0x00A8_AEB0 && 0x80A8_79B4u32 & 0xe000_0000
        == 0x8000_0000 && 0x80A8_79B4u32 & 0x1fff_ffff == 0x00A8_79B4) by (bit_vector);
}

} // verus!

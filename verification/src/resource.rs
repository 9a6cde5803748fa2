//! Resources of an application as the guest's file functions see them.

use crate::app_image::ResourceKind;
use crate::save_state::{le_word, read_u32, word_in};
use crate::search::lowered;
use crate::text::to_lower;
use vstd::prelude::*;
use vstd::string::*;

verus! {

/// Position of the last dot.
pub open spec fn last_dot(name: Seq<u8>) -> Option<int>
    decreases name.len(),
{
    if name.len() == 0 {
        None
    } else if name.last() == 0x2e {
        Some(name.len() - 1)
    } else {
        last_dot(name.drop_last())
    }
}

/// Whether a name ends in the extension `bin`.
pub open spec fn is_bin(name: Seq<u8>) -> bool {
    match last_dot(name) {
        Some(dot) => lowered(name.skip(dot + 1)) == seq![0x62u8, 0x69, 0x6e],
        None => false,
    }
}

/// Whether a resource has the packer's reduced header: it has records, and
/// declares more data than there is.
pub open spec fn has_reduced_header(data: Seq<u8>) -> bool {
    &&& 12 <= data.len() <= u32::MAX
    &&& data[0] + 256 * data[1] != 0
    &&& word_in(data, 8) > data.len()
}

/// A resource with the header that the guest expects in place of the reduced one.
pub open spec fn expanded(data: Seq<u8>) -> Seq<u8> {
    le_word(1) + le_word(0) + le_word((data.len() - 4) as u32) + data.subrange(4, 8) + le_word(0)
        + data.skip(12) + Seq::new(8, |i: int| 0u8)
}

/// What the guest reads from a resource.
pub open spec fn resource_view(name: Seq<u8>, kind: ResourceKind, data: Seq<u8>) -> Seq<u8> {
    if kind == ResourceKind::Packed && is_bin(name) && has_reduced_header(data) && data.len() + 16
        <= usize::MAX {
        expanded(data)
    } else {
        data
    }
}

fn ends_in_bin(name: &[u8]) -> (result: bool)
    ensures
        result == is_bin(name@),
{
    let mut end: usize = name.len();
    assert(name@.take(end as int) =~= name@);
    while end > 0
        invariant
            end <= name@.len(),
            last_dot(name@) == last_dot(name@.take(end as int)),
        decreases end,
    {
        assert(name@.take(end as int).drop_last() =~= name@.take(end - 1));
        if name[end - 1] == 0x2e {
            let rest: usize = name.len() - end;
            let ghost extension = lowered(name@.skip(end as int));
            if rest != 3 {
                assert(extension.len() != 3);
                return false;
            }
            let first: u8 = to_lower(name[end]);
            let second: u8 = to_lower(name[end + 1]);
            let third: u8 = to_lower(name[end + 2]);
            assert(extension =~= seq![first, second, third]);
            assert(seq![first, second, third][0] == first);
            assert(seq![first, second, third][1] == second);
            assert(seq![first, second, third][2] == third);
            return first == 0x62 && second == 0x69 && third == 0x6e;
        }
        end = end - 1;
    }
    false
}

/// What the guest reads from a resource.
pub fn prepare_resource_file_data(name: &str, kind: ResourceKind, data: Vec<u8>) -> (view: Vec<u8>)
    ensures
        view@ == resource_view(name.spec_bytes(), kind, data@),
{
    if kind != ResourceKind::Packed || !ends_in_bin(name.as_bytes()) || data.len() < 12 {
        return data;
    }
    let length: usize = data.len();
    let record_count: u32 = data[0] as u32 + 256 * (data[1] as u32);
    let declared_size: u32 = read_u32(data.as_slice(), 8);
    if length as u64 > u32::MAX as u64 {
        return data;
    }
    if record_count == 0 || declared_size as u64 <= length as u64 {
        return data;
    }
    if length > usize::MAX - 16 {
        return data;
    }
    let mut view: Vec<u8> = Vec::new();
    push_word(&mut view, 1);
    push_word(&mut view, 0);
    push_word(&mut view, (length - 4) as u32);
    view.extend_from_slice(vstd::slice::slice_subrange(data.as_slice(), 4, 8));
    push_word(&mut view, 0);
    view.extend_from_slice(vstd::slice::slice_subrange(data.as_slice(), 12, length));
    push_word(&mut view, 0);
    push_word(&mut view, 0);
    assert(view@ =~= expanded(data@));
    view
}

fn push_word(bytes: &mut Vec<u8>, value: u32)
    ensures
        final(bytes)@ == old(bytes)@ + le_word(value),
{
    bytes.push((value % 0x100) as u8);
    bytes.push((value / 0x100 % 0x100) as u8);
    bytes.push((value / 0x1_0000 % 0x100) as u8);
    bytes.push((value / 0x100_0000) as u8);
    assert(bytes@ =~= old(bytes)@ + le_word(value));
}

} // verus!

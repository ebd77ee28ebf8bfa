use smithay::allocator::dmabuf::{AsDmabuf, Dmabuf, DmabufFlags, PlaneFd};
use smithay::allocator::{Fourcc, Modifier, Size};

const ARGB8888: u32 = 0x34325241;

fn sample_buffer(raw_fd: i32) -> Dmabuf {
    let mut builder = Dmabuf::builder(
        Size { w: 32, h: 32 },
        Fourcc(ARGB8888),
        DmabufFlags::empty(),
    );
    assert!(builder.add_plane(PlaneFd { raw: raw_fd }, 0, 0, 128, Modifier::Linear));
    builder.build().expect("one plane was added")
}

#[test]
fn weak_upgrades_while_strong_handle_lives() {
    let buf = sample_buffer(10);
    let weak = buf.weak();
    assert!(!weak.is_gone());
    let upgraded = weak.upgrade().expect("a strong handle is still alive");
    // The upgraded handle points at the same descriptor.
    assert!(upgraded == buf);
    assert_eq!(upgraded.num_planes(), 1);
}

#[test]
fn weak_is_gone_once_strong_handles_are_dropped() {
    let buf = sample_buffer(11);
    let weak = buf.weak();
    drop(buf);
    assert!(weak.upgrade().is_none());
    assert!(weak.is_gone());
}

#[test]
fn clones_keep_the_descriptor_alive() {
    let buf = sample_buffer(12);
    let second = buf.clone();
    let weak = buf.weak();
    drop(buf);
    // A clone still holds the descriptor.
    assert!(!weak.is_gone());
    assert!(weak.upgrade().is_some());
    drop(second);
    assert!(weak.is_gone());
    assert!(weak.upgrade().is_none());
}

#[test]
fn cloned_weak_handles_observe_the_same_descriptor() {
    let buf = sample_buffer(13);
    let weak = buf.weak();
    let weak2 = weak.clone();
    assert!(weak2.upgrade().expect("still alive") == buf);
    drop(buf);
    assert!(weak2.is_gone());
    assert!(weak.is_gone());
}

#[test]
fn equality_is_by_identity_not_content() {
    let a = sample_buffer(14);
    let b = sample_buffer(14);
    // Identical inputs, but distinct descriptors: the handles are unequal.
    assert!(a != b);
    // Clones share the descriptor: equal.
    assert!(a == a.clone());
}

#[test]
fn weak_equality_is_by_identity_not_content() {
    let a = sample_buffer(16);
    let b = sample_buffer(16);
    // Two weak handles to one descriptor are equal; to distinct descriptors,
    // unequal, even over identical content.
    assert!(a.weak() == a.weak());
    assert!(a.weak() == a.weak().clone());
    assert!(a.weak() != b.weak());
}

#[test]
fn export_of_a_dmabuf_is_the_identity() {
    let buf = sample_buffer(15);
    let exported = buf.export().expect("exporting a dmabuf cannot fail");
    assert!(exported == buf);
}

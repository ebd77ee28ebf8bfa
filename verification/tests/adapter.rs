use smithay::allocator::dmabuf::{
    erase_errors, AnyError, AsDmabuf, Dmabuf, DmabufAllocator, DmabufFlags, PlaneFd,
};
use smithay::allocator::{Allocator, Fourcc, Modifier, Size};

const ARGB8888: u32 = 0x34325241;

fn sample_buffer(raw_fd: i32) -> Dmabuf {
    let mut builder = Dmabuf::builder(
        Size { w: 32, h: 32 },
        Fourcc(ARGB8888),
        DmabufFlags::empty(),
    );
    assert!(builder.add_plane(PlaneFd { raw: raw_fd }, 0, 0, 128, Modifier::Linear));
    builder.build().expect("one plane was added")
}

/// A backend buffer whose export always fails with a sentinel error.
struct UnexportableBuffer;

impl AsDmabuf for UnexportableBuffer {
    type Error = &'static str;

    fn export(&self) -> Result<Dmabuf, &'static str> {
        Err("sentinel export failure")
    }
}

/// A backend whose allocation always fails with a sentinel error.
struct FailingBackend;

impl Allocator for FailingBackend {
    type Buffer = UnexportableBuffer;
    type Error = u32;

    fn create_buffer(
        &mut self,
        _width: u32,
        _height: u32,
        _fourcc: Fourcc,
        _modifiers: &[Modifier],
    ) -> Result<UnexportableBuffer, u32> {
        Err(417)
    }
}

/// A backend that allocates fine, but whose buffers cannot be exported.
struct UnexportingBackend;

impl Allocator for UnexportingBackend {
    type Buffer = UnexportableBuffer;
    type Error = u32;

    fn create_buffer(
        &mut self,
        _width: u32,
        _height: u32,
        _fourcc: Fourcc,
        _modifiers: &[Modifier],
    ) -> Result<UnexportableBuffer, u32> {
        Ok(UnexportableBuffer)
    }
}

/// A backend that hands out exportable buffers wrapping a real descriptor.
struct GoodBackend;

struct GoodBuffer {
    inner: Dmabuf,
}

impl AsDmabuf for GoodBuffer {
    type Error = &'static str;

    fn export(&self) -> Result<Dmabuf, &'static str> {
        Ok(self.inner.clone())
    }
}

impl Allocator for GoodBackend {
    type Buffer = GoodBuffer;
    type Error = u32;

    fn create_buffer(
        &mut self,
        _width: u32,
        _height: u32,
        _fourcc: Fourcc,
        _modifiers: &[Modifier],
    ) -> Result<GoodBuffer, u32> {
        Ok(GoodBuffer { inner: sample_buffer(42) })
    }
}

#[test]
fn erase_errors_keeps_each_stage_error_unchanged() {
    let buf = sample_buffer(50);
    let staged: Result<Result<Dmabuf, u8>, u16> = Ok(Ok(buf.clone()));
    match erase_errors(staged) {
        Ok(out) => assert!(out == buf),
        Err(_) => panic!("a successful export passes through"),
    }
    let staged: Result<Result<Dmabuf, u8>, u16> = Ok(Err(3));
    assert!(matches!(erase_errors(staged), Err(AnyError::Export(3))));
    let staged: Result<Result<Dmabuf, u8>, u16> = Err(9);
    assert!(matches!(erase_errors(staged), Err(AnyError::Allocation(9))));
}

#[test]
fn adapter_forwards_allocation_errors_as_cause() {
    let mut adapter = DmabufAllocator(FailingBackend);
    let result = adapter.create_buffer(64, 64, Fourcc(ARGB8888), &[Modifier::Linear]);
    match result {
        Err(AnyError::Allocation(cause)) => assert_eq!(cause, 417),
        _ => panic!("expected the backend's allocation error as the cause"),
    }
}

#[test]
fn adapter_forwards_export_errors_as_cause() {
    let mut adapter = DmabufAllocator(UnexportingBackend);
    let result = adapter.create_buffer(64, 64, Fourcc(ARGB8888), &[Modifier::Linear]);
    match result {
        Err(AnyError::Export(cause)) => assert_eq!(cause, "sentinel export failure"),
        _ => panic!("expected the backend's export error as the cause"),
    }
}

#[test]
fn adapter_hands_exported_buffers_through() {
    let mut adapter = DmabufAllocator(GoodBackend);
    let result = adapter.create_buffer(64, 64, Fourcc(ARGB8888), &[]);
    let buf = result.expect("allocation and export both succeed");
    assert_eq!(buf.num_planes(), 1);
    let handles: Vec<i32> = buf.handles().iter().map(|f| f.raw).collect();
    assert_eq!(handles, vec![42]);
}

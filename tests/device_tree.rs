use hwalloc::bar32alloc::PciMemory32Allocator;
use hwalloc::error::AllocError;

fn push_u32(v: &mut Vec<u8>, x: u32) {
    v.extend_from_slice(&x.to_be_bytes());
}

fn pad4(v: &mut Vec<u8>) {
    while v.len() % 4 != 0 {
        v.push(0);
    }
}

struct TreeBuilder {
    structs: Vec<u8>,
    strings: Vec<u8>,
}

impl TreeBuilder {
    fn begin(&mut self, name: &str) {
        push_u32(&mut self.structs, 1);
        self.structs.extend_from_slice(name.as_bytes());
        self.structs.push(0);
        pad4(&mut self.structs);
    }

    fn prop(&mut self, name: &str, value: &[u8]) {
        let off = self.strings.len() as u32;
        self.strings.extend_from_slice(name.as_bytes());
        self.strings.push(0);
        push_u32(&mut self.structs, 3);
        push_u32(&mut self.structs, value.len() as u32);
        push_u32(&mut self.structs, off);
        self.structs.extend_from_slice(value);
        pad4(&mut self.structs);
    }

    fn end(&mut self) {
        push_u32(&mut self.structs, 2);
    }

    fn finish(mut self) -> Vec<u8> {
        push_u32(&mut self.structs, 9);
        let rsv_off = 40u32;
        let struct_off = rsv_off + 16;
        let strings_off = struct_off + self.structs.len() as u32;
        let total = strings_off + self.strings.len() as u32;
        let mut blob = Vec::new();
        for x in [0xd00d_feed, total, struct_off, strings_off, rsv_off, 17, 16, 0] {
            push_u32(&mut blob, x);
        }
        push_u32(&mut blob, self.strings.len() as u32);
        push_u32(&mut blob, self.structs.len() as u32);
        blob.extend_from_slice(&[0u8; 16]);
        blob.extend_from_slice(&self.structs);
        blob.extend_from_slice(&self.strings);
        blob
    }
}

fn range_record(head: u8, bus: u64, host: u64, size: u64) -> Vec<u8> {
    let mut r = vec![head, 0, 0, 0];
    r.extend_from_slice(&bus.to_be_bytes());
    r.extend_from_slice(&host.to_be_bytes());
    r.extend_from_slice(&size.to_be_bytes());
    r
}

fn tree(ranges: Option<&[u8]>) -> Vec<u8> {
    let mut b = TreeBuilder { structs: Vec::new(), strings: Vec::new() };
    b.begin("");
    b.prop("#address-cells", &2u32.to_be_bytes());
    b.prop("#size-cells", &2u32.to_be_bytes());
    b.begin("pci@30000000");
    b.prop("compatible", b"pci-host-ecam-generic\0");
    if let Some(r) = ranges {
        b.prop("ranges", r);
    }
    b.end();
    b.end();
    b.finish()
}

fn allocator_for(blob: &[u8]) -> Result<PciMemory32Allocator, AllocError> {
    let dt = fdt::Fdt::new(blob).unwrap();
    let node = dt.find_compatible(&["pci-host-ecam-generic"]).unwrap();
    match node.property("ranges") {
        Some(p) => PciMemory32Allocator::from_ranges(p.value),
        None => Err(AllocError::ConfigurationError),
    }
}

#[test]
fn window_from_device_tree() {
    let mut ranges = range_record(0x01, 0, 0x3eff_0000, 0x1_0000);
    ranges.extend(range_record(0x02, 0x4000_0000, 0x4000_0000, 0x4000_0000));
    let blob = tree(Some(&ranges));
    let a = allocator_for(&blob).unwrap();
    assert_eq!(a.start(), 0x4000_0000);
    assert_eq!(a.end(), 0x8000_0000);
}

#[test]
fn device_tree_with_only_prefetchable_window() {
    let ranges = range_record(0x82, 0x4000_0000, 0x4000_0000, 0x4000_0000);
    let blob = tree(Some(&ranges));
    assert_eq!(allocator_for(&blob).map(|a| a.start()), Err(AllocError::ConfigurationError));
    let blob = tree(None);
    assert_eq!(allocator_for(&blob).map(|a| a.start()), Err(AllocError::ConfigurationError));
}

use fdt_rs::base::iters::StringPropIter;
use fdt_rs::base::{DevTree, DevTreeItem};
use fdt_rs::error::DevTreeError;
use fdt_rs::index::{DevTreeIndex, DevTreeIndexNode, DevTreeIndexProp};
use fdt_rs::prelude::PropReader;

/// Writes a flattened device tree, token by token.
struct BlobWriter {
    structs: Vec<u8>,
    strings: Vec<u8>,
}

impl BlobWriter {
    fn new() -> Self {
        BlobWriter { structs: Vec::new(), strings: Vec::new() }
    }

    fn token(&mut self, code: u32) {
        self.structs.extend_from_slice(&code.to_be_bytes());
    }

    fn pad(&mut self) {
        while self.structs.len() % 4 != 0 {
            self.structs.push(0);
        }
    }

    fn begin(&mut self, name: &str) {
        self.token(1);
        self.structs.extend_from_slice(name.as_bytes());
        self.structs.push(0);
        self.pad();
    }

    fn end(&mut self) {
        self.token(2);
    }

    fn nop(&mut self) {
        self.token(4);
    }

    fn name_offset(&mut self, name: &str) -> u32 {
        let wanted = name.as_bytes();
        let mut start = 0;
        while start < self.strings.len() {
            let mut stop = start;
            while self.strings[stop] != 0 {
                stop += 1;
            }
            if &self.strings[start..stop] == wanted {
                return start as u32;
            }
            start = stop + 1;
        }
        let at = self.strings.len() as u32;
        self.strings.extend_from_slice(wanted);
        self.strings.push(0);
        at
    }

    fn prop(&mut self, name: &str, value: &[u8]) {
        let nameoff = self.name_offset(name);
        self.token(3);
        self.structs.extend_from_slice(&(value.len() as u32).to_be_bytes());
        self.structs.extend_from_slice(&nameoff.to_be_bytes());
        self.structs.extend_from_slice(value);
        self.pad();
    }

    fn cells(&mut self, name: &str, cells: &[u32]) {
        let mut value = Vec::new();
        for cell in cells {
            value.extend_from_slice(&cell.to_be_bytes());
        }
        self.prop(name, &value);
    }

    fn string(&mut self, name: &str, text: &str) {
        let mut value = text.as_bytes().to_vec();
        value.push(0);
        self.prop(name, &value);
    }

    fn strings(&mut self, name: &str, texts: &[&str]) {
        let mut value = Vec::new();
        for text in texts {
            value.extend_from_slice(text.as_bytes());
            value.push(0);
        }
        self.prop(name, &value);
    }

    fn finish(mut self, reserved: &[(u64, u64)]) -> Vec<u8> {
        self.token(9);
        let off_mem_rsvmap = 40usize;
        let off_dt_struct = off_mem_rsvmap + 16 * (reserved.len() + 1);
        let off_dt_strings = off_dt_struct + self.structs.len();
        let totalsize = off_dt_strings + self.strings.len();
        let mut blob = Vec::new();
        for field in [
            0xd00d_feedu32,
            totalsize as u32,
            off_dt_struct as u32,
            off_dt_strings as u32,
            off_mem_rsvmap as u32,
            17,
            16,
            0,
            self.strings.len() as u32,
            self.structs.len() as u32,
        ] {
            blob.extend_from_slice(&field.to_be_bytes());
        }
        for (address, size) in reserved {
            blob.extend_from_slice(&address.to_be_bytes());
            blob.extend_from_slice(&size.to_be_bytes());
        }
        blob.extend_from_slice(&[0u8; 16]);
        blob.extend_from_slice(&self.structs);
        blob.extend_from_slice(&self.strings);
        blob
    }
}

/// A buffer that holds a blob at an address that is a multiple of four.
struct Aligned {
    bytes: Vec<u8>,
    start: usize,
    len: usize,
}

impl Aligned {
    fn new(blob: &[u8]) -> Self {
        let mut bytes = vec![0u8; blob.len() + 4];
        let start = (4 - bytes.as_ptr() as usize % 4) % 4;
        bytes[start..start + blob.len()].copy_from_slice(blob);
        Aligned { bytes, start, len: blob.len() }
    }

    fn get(&self) -> &[u8] {
        &self.bytes[self.start..self.start + self.len]
    }

    /// The same bytes, one byte further on: at an address that is no multiple of four.
    fn unaligned(blob: &[u8]) -> Self {
        let mut bytes = vec![0u8; blob.len() + 8];
        let start = (4 - bytes.as_ptr() as usize % 4) % 4 + 1;
        bytes[start..start + blob.len()].copy_from_slice(blob);
        Aligned { bytes, start, len: blob.len() }
    }
}
/// The device tree of the riscv64 "virt" machine.
fn virt_blob() -> Vec<u8> {
    let mut w = BlobWriter::new();
    w.begin("");
    w.cells("#address-cells", &[2]);
    w.cells("#size-cells", &[2]);
    w.string("compatible", "riscv-virtio");
    w.string("model", "riscv-virtio,qemu");

    w.begin("flash@20000000");
    w.cells("bank-width", &[4]);
    w.cells("reg", &[0, 0x2000_0000, 0, 0x200_0000, 0, 0x2200_0000, 0, 0x200_0000]);
    w.string("compatible", "cfi-flash");
    w.end();

    w.begin("rtc@101000");
    w.cells("interrupts", &[0x0b]);
    w.cells("interrupt-parent", &[3]);
    w.cells("reg", &[0, 0x10_1000, 0, 0x1000]);
    w.string("compatible", "google,goldfish-rtc");
    w.end();

    w.begin("chosen");
    w.prop("bootargs", &[0]);
    w.string("stdout-path", "/uart@10000000");
    w.end();

    w.begin("uart@10000000");
    w.cells("interrupts", &[0x0a]);
    w.cells("interrupt-parent", &[3]);
    w.cells("clock-frequency", &[0x38_4000]);
    w.cells("reg", &[0, 0x1000_0000, 0, 0x100]);
    w.string("compatible", "ns16550a");
    w.end();

    w.begin("poweroff");
    w.cells("value", &[0x5555]);
    w.cells("offset", &[0]);
    w.cells("regmap", &[4]);
    w.string("compatible", "syscon-poweroff");
    w.end();

    w.begin("reboot");
    w.cells("value", &[0x7777]);
    w.cells("offset", &[0]);
    w.cells("regmap", &[4]);
    w.string("compatible", "syscon-reboot");
    w.end();

    w.begin("test@100000");
    w.cells("phandle", &[4]);
    w.cells("reg", &[0, 0x10_0000, 0, 0x1000]);
    w.strings("compatible", &["sifive,test1", "sifive,test0", "syscon"]);
    w.end();

    for n in (1u32..=8).rev() {
        w.begin(&format!("virtio_mmio@1000{}000", n));
        w.cells("interrupts", &[n]);
        w.cells("interrupt-parent", &[3]);
        w.cells("reg", &[0, 0x1000_0000 + 0x1000 * n, 0, 0x1000]);
        w.string("compatible", "virtio,mmio");
        w.end();
    }

    w.begin("cpus");
    w.cells("#address-cells", &[1]);
    w.cells("#size-cells", &[0]);
    w.cells("timebase-frequency", &[0x98_9680]);
    w.begin("cpu-map");
    w.begin("cluster0");
    w.begin("core0");
    w.cells("cpu", &[1]);
    w.end();
    w.end();
    w.end();
    w.begin("cpu@0");
    w.cells("phandle", &[1]);
    w.string("device_type", "cpu");
    w.cells("reg", &[0]);
    w.string("status", "okay");
    w.string("compatible", "riscv");
    w.string("riscv,isa", "rv64imafdcsu");
    w.string("mmu-type", "riscv,sv48");
    w.begin("interrupt-controller");
    w.cells("#interrupt-cells", &[1]);
    w.prop("interrupt-controller", &[]);
    w.string("compatible", "riscv,cpu-intc");
    w.cells("phandle", &[2]);
    w.end();
    w.end();
    w.end();

    w.begin("memory@80000000");
    w.string("device_type", "memory");
    w.cells("reg", &[0, 0x8000_0000, 0, 0x800_0000]);
    w.end();

    w.begin("soc");
    w.cells("#address-cells", &[2]);
    w.cells("#size-cells", &[2]);
    w.string("compatible", "simple-bus");
    w.prop("ranges", &[]);

    w.begin("pci@30000000");
    w.cells("interrupt-map-mask", &[0x1800, 0, 0, 7]);
    let mut map = Vec::new();
    for slot in 0u32..4 {
        for pin in 1u32..=4 {
            map.extend_from_slice(&[slot << 11, 0, 0, pin, 3, 0x20 + (slot + pin - 1) % 4]);
        }
    }
    w.cells("interrupt-map", &map);
    w.cells(
        "ranges",
        &[
            0x100_0000, 0, 0, 0, 0x300_0000, 0, 0x1_0000, 0x200_0000, 0, 0x4000_0000, 0,
            0x4000_0000, 0, 0x4000_0000,
        ],
    );
    w.cells("reg", &[0, 0x3000_0000, 0, 0x1000_0000]);
    w.prop("dma-coherent", &[]);
    w.cells("bus-range", &[0, 0xff]);
    w.cells("linux,pci-domain", &[0]);
    w.string("device_type", "pci");
    w.string("compatible", "pci-host-ecam-generic");
    w.cells("#size-cells", &[2]);
    w.cells("#interrupt-cells", &[1]);
    w.cells("#address-cells", &[3]);
    w.end();

    w.begin("interrupt-controller@c000000");
    w.cells("phandle", &[3]);
    w.cells("riscv,ndev", &[0x35]);
    w.cells("reg", &[0, 0xc00_0000, 0, 0x400_0000]);
    w.cells("interrupts-extended", &[2, 0x0b, 2, 9]);
    w.prop("interrupt-controller", &[]);
    w.string("compatible", "riscv,plic0");
    w.cells("#interrupt-cells", &[1]);
    w.cells("#address-cells", &[0]);
    w.end();

    w.begin("clint@2000000");
    w.cells("interrupts-extended", &[2, 3, 2, 7]);
    w.cells("reg", &[0, 0x200_0000, 0, 0x1_0000]);
    w.string("compatible", "riscv,clint0");
    w.end();

    w.end();
    w.end();
    w.finish(&[])
}

static DFS_NODES: &[&str] = &[
    "", // Root
    "flash@20000000",
    "rtc@101000",
    "chosen",
    "uart@10000000",
    "poweroff",
    "reboot",
    "test@100000",
    "virtio_mmio@10008000",
    "virtio_mmio@10007000",
    "virtio_mmio@10006000",
    "virtio_mmio@10005000",
    "virtio_mmio@10004000",
    "virtio_mmio@10003000",
    "virtio_mmio@10002000",
    "virtio_mmio@10001000",
    "cpus",
    "cpu-map",
    "cluster0",
    "core0",
    "cpu@0",
    "interrupt-controller",
    "memory@80000000",
    "soc",
    "pci@30000000",
    "interrupt-controller@c000000",
    "clint@2000000",
];

#[derive(Debug)]
enum ItemNameExpectation<'a> {
    Node(&'a str),
    Prop(&'a str),
}

fn node(name: &str) -> ItemNameExpectation<'_> {
    ItemNameExpectation::Node(name)
}

fn prop(name: &str) -> ItemNameExpectation<'_> {
    ItemNameExpectation::Prop(name)
}

fn check_item_name_expectations<'a, 'dt: 'a>(
    mut got: impl FnMut() -> Result<Option<DevTreeItem<'a, 'dt>>, DevTreeError>,
    expected: &[ItemNameExpectation],
) {
    for expectation in expected {
        let got_item = got()
            .expect("Unexpected iterator failure")
            .expect("Unexpected end of iterator");
        match got_item {
            DevTreeItem::Node(node) => {
                let node_name = node.name().unwrap();
                match expectation {
                    ItemNameExpectation::Node(expected_name) => {
                        assert!(
                            &node_name == expected_name,
                            "Expected node with name {} got {}",
                            expected_name,
                            node_name,
                        );
                    }
                    ItemNameExpectation::Prop(expected_name) => {
                        panic!(
                            "Expected prop with name {} got node with name {}",
                            expected_name, node_name,
                        );
                    }
                }
            }
            DevTreeItem::Prop(prop) => {
                let prop_name = prop.name().unwrap();
                match expectation {
                    ItemNameExpectation::Node(expected_name) => {
                        panic!(
                            "Expected node with name {} got prop with name {}",
                            expected_name, prop_name,
                        );
                    }
                    ItemNameExpectation::Prop(expected_name) => {
                        assert!(
                            &prop_name == expected_name,
                            "Expected prop with name {} got {}",
                            expected_name,
                            prop_name,
                        );
                    }
                }
            }
        }
    }

    match got() {
        Err(e) => panic!("Expected iterator to end, but it failed instead: {:?}", e),
        Ok(Some(item)) => {
            let (t, name) = match item {
                DevTreeItem::Node(node) => ("node", node.name().unwrap()),
                DevTreeItem::Prop(prop) => ("prop", prop.name().unwrap()),
            };
            panic!(
                "Expected iterator to end, but it produced a {} with name {}",
                t, name
            );
        }
        Ok(None) => {}
    }
}

/// The number of strings that `iter` still hands out, or the error it runs into.
fn count_strings(mut iter: StringPropIter) -> Result<usize, DevTreeError> {
    let mut count = 0;
    while let Some(_) = iter.next()? {
        count += 1;
    }
    Ok(count)
}

fn find_index_prop<'a, 'i: 'a, 'dt: 'i>(
    mut next: impl FnMut() -> Option<DevTreeIndexProp<'a, 'i, 'dt>>,
    predicate: impl Fn(&DevTreeIndexProp<'a, 'i, 'dt>) -> bool,
) -> Option<DevTreeIndexProp<'a, 'i, 'dt>> {
    while let Some(prop) = next() {
        if predicate(&prop) {
            return Some(prop);
        }
    }
    None
}

#[test]
fn test_readsize_advice() {
    let fdt = Aligned::new(&virt_blob());
    let size = DevTree::read_totalsize(fdt.get()).unwrap();
    assert!(size == fdt.get().len());
    let _blob = DevTree::new(fdt.get()).unwrap();
}

#[test]
fn reserved_entries_iter() {
    let fdt = Aligned::new(&virt_blob());
    let blob = DevTree::new(fdt.get()).unwrap();
    let mut iter = blob.reserved_entries();
    let mut count = 0;
    while let Some(_) = iter.next() {
        count += 1;
    }
    assert!(count == 0);
}

#[test]
fn nodes_iter() {
    let fdt = Aligned::new(&virt_blob());
    let blob = DevTree::new(fdt.get()).unwrap();
    let iter = blob.nodes();
    let mut pair_iter = iter.clone();
    let mut expected = DFS_NODES.iter();
    while let (Some(node), Some(expected)) = (pair_iter.next().unwrap(), expected.next()) {
        assert_eq!(node.name().unwrap(), *expected);
    }
    let mut iter = iter;
    let mut count = 0;
    while let Some(_) = iter.next().unwrap() {
        count += 1;
    }
    assert!(count == DFS_NODES.len());
}

// Test that comparision of props works as expected.
#[test]
fn verify_prop_comparisions() {
    let fdt = Aligned::new(&virt_blob());
    let blob = DevTree::new(fdt.get()).unwrap();

    let mut props_iter_1 = blob.props();
    let mut props_iter_2 = blob.props();

    while let (Some(prop_1), Some(prop_2)) =
        (props_iter_1.next().unwrap(), props_iter_2.next().unwrap())
    {
        assert!(prop_1 == prop_2);
    }

    let mut props_iter_1 = blob.props();
    let mut props_iter_2 = blob.props();

    // Mess up the lock step iteration, every prop should be different
    let _ = props_iter_1.next().unwrap();

    while let (Some(prop_1), Some(prop_2)) =
        (props_iter_1.next().unwrap(), props_iter_2.next().unwrap())
    {
        assert!(prop_1 != prop_2);
    }
}

// Test that comparision of props works as expected.
#[test]
fn get_prop_node() {
    let fdt = Aligned::new(&virt_blob());
    let blob = DevTree::new(fdt.get()).unwrap();

    let prop = blob.props().next().unwrap().unwrap();
    let node = prop.node();

    assert_eq!(node.name().unwrap(), "");
}

// Test that comparision of props works as expected.
#[test]
fn parsing_test_get_memory_prop_node() {
    let fdt = Aligned::new(&virt_blob());
    let blob = DevTree::new(fdt.get()).unwrap();

    let mem_prop = blob
        .props()
        .find(|p| Ok(p.name()? == "device_type" && p.str()? == "memory"))
        .unwrap()
        .expect("Unable to find memory node.");
    let mem_node = mem_prop.node();

    let _ = mem_node
        .props()
        .find(|p| Ok(p.name()? == "reg"))
        .unwrap()
        .expect("Device tree memory node missing 'reg' prop.");
}

// Test that comparision of nodes works as expected.
#[test]
fn verify_node_comparisions() {
    let fdt = Aligned::new(&virt_blob());
    let blob = DevTree::new(fdt.get()).unwrap();

    let mut nodes_iter_1 = blob.nodes();
    let mut nodes_iter_2 = blob.nodes();

    while let (Some(node_1), Some(node_2)) =
        (nodes_iter_1.next().unwrap(), nodes_iter_2.next().unwrap())
    {
        assert!(node_1 == node_2);
    }

    let mut nodes_iter_1 = blob.nodes();
    let mut nodes_iter_2 = blob.nodes();

    // Mess up the lock step iteration, every node should be different
    let _ = nodes_iter_1.next().unwrap();

    while let (Some(node_1), Some(node_2)) =
        (nodes_iter_1.next().unwrap(), nodes_iter_2.next().unwrap())
    {
        assert!(node_1 != node_2);
    }
}

#[test]
fn node_prop_iter() {
    let fdt = Aligned::new(&virt_blob());
    let blob = DevTree::new(fdt.get()).unwrap();
    let mut node_iter = blob.nodes();
    while let Some(node) = node_iter.next().unwrap() {
        let mut prop_iter = node.props();
        while let Some(prop) = prop_iter.next().unwrap() {
            if prop.length() > 0 {
                if let Ok(i) = count_strings(prop.iter_str()) {
                    if i == 0 {
                        continue;
                    }
                    assert!(i < 64);

                    let mut iter = prop.iter_str();
                    while let Some(s) = iter.next().unwrap() {
                        let _ = s;
                    }
                }
            }
        }
    }
}

#[test]
fn next_compatible_finds_initial_node() {
    let blob = Aligned::new(&virt_blob());
    let fdt = DevTree::new(blob.get()).unwrap();
    let node = fdt
        .compatible_nodes("riscv-virtio")
        .next()
        .unwrap()
        .unwrap();
    assert!(node.name().unwrap() == ""); // Root node has no "name"
}

#[test]
fn next_compatible_finds_final_node() {
    let blob = Aligned::new(&virt_blob());
    let fdt = DevTree::new(blob.get()).unwrap();
    let node = fdt
        .compatible_nodes("riscv,clint0")
        .next()
        .unwrap()
        .unwrap();
    assert!(node.name().unwrap() == "clint@2000000");
}

#[test]
fn find_all_compatible() {
    let blob = Aligned::new(&virt_blob());
    let devtree = DevTree::new(blob.get()).unwrap();
    let compat = "virtio,mmio";
    let exp = "virtio_mmio@1000";
    let mut count = 0;
    let exp_count = 8;

    if let Some(mut cur) = devtree.root().unwrap() {
        while let Some(node) = cur.find_next_compatible_node(compat).unwrap() {
            count += 1;
            // Verify the prefix matches.
            // (ascii doesn't have startswith)
            assert!(node.name().unwrap()[0..exp.len()] == *exp);
            cur = node;
            assert!(count <= exp_count);
        }
    }
    assert!(count == exp_count);
}

#[test]
fn get_path() {
    let blob = Aligned::new(&virt_blob());
    let dt = DevTree::new(blob.get()).unwrap();
    let core0 = dt
        .node_at_path(&["cpus", "cpu-map", "cluster0", "core0"])
        .unwrap()
        .expect("Expected to find node at path");
    assert!(core0.name().expect("node name should be readable") == "core0");
}

#[test]
fn get_descendants() {
    let blob = Aligned::new(&virt_blob());
    let dt = DevTree::new(blob.get()).unwrap();
    let cpus = dt.node_at_path(&["cpus"]).unwrap().unwrap();
    let mut iter = cpus.descendants();
    check_item_name_expectations(
        || iter.next(),
        &[
            node("cpu-map"),
            node("cluster0"),
            node("core0"),
            prop("cpu"),
            node("cpu@0"),
            prop("phandle"),
            prop("device_type"),
            prop("reg"),
            prop("status"),
            prop("compatible"),
            prop("riscv,isa"),
            prop("mmu-type"),
            node("interrupt-controller"),
            prop("#interrupt-cells"),
            prop("interrupt-controller"),
            prop("compatible"),
            prop("phandle"),
        ],
    );
}

#[test]
fn get_children() {
    let blob = Aligned::new(&virt_blob());
    let dt = DevTree::new(blob.get()).unwrap();
    let cpus = dt.node_at_path(&["cpus"]).unwrap().unwrap();
    let mut iter = cpus.children();
    check_item_name_expectations(
        || iter.next(),
        &[
            node("cpu-map"),
            node("cpu@0"),
            prop("phandle"),
            prop("device_type"),
            prop("reg"),
            prop("status"),
            prop("compatible"),
            prop("riscv,isa"),
            prop("mmu-type"),
        ],
    );
}

#[test]
fn get_siblings_and_descendants() {
    let blob = Aligned::new(&virt_blob());
    let dt = DevTree::new(blob.get()).unwrap();
    let cpu_map = dt.node_at_path(&["cpus", "cpu-map"]).unwrap().unwrap();
    let mut iter = cpu_map.siblings_and_descendants();
    check_item_name_expectations(
        || iter.next(),
        &[
            node("cpu@0"),
            prop("phandle"),
            prop("device_type"),
            prop("reg"),
            prop("status"),
            prop("compatible"),
            prop("riscv,isa"),
            prop("mmu-type"),
            node("interrupt-controller"),
            prop("#interrupt-cells"),
            prop("interrupt-controller"),
            prop("compatible"),
            prop("phandle"),
        ],
    );
}

#[test]
fn get_siblings() {
    let blob = Aligned::new(&virt_blob());
    let dt = DevTree::new(blob.get()).unwrap();
    let cpu_map = dt.node_at_path(&["cpus", "cpu-map"]).unwrap().unwrap();
    let mut iter = cpu_map.siblings();
    check_item_name_expectations(
        || iter.next(),
        &[
            node("cpu@0"),
            prop("phandle"),
            prop("device_type"),
            prop("reg"),
            prop("status"),
            prop("compatible"),
            prop("riscv,isa"),
            prop("mmu-type"),
        ],
    );
}

/// A work buffer for the index of `devtree`.
fn index_buffer(devtree: &DevTree) -> Vec<u8> {
    let layout = DevTreeIndex::get_layout(devtree).unwrap();
    vec![0u8; layout.size() + layout.align()]
}

// Test that we can create an index from a valid device tree
#[test]
fn create_index() {
    let blob = Aligned::new(&virt_blob());
    let devtree = DevTree::new(blob.get()).unwrap();
    let mut vec = index_buffer(&devtree);
    let _ = DevTreeIndex::new(devtree, vec.as_mut_slice()).unwrap();
}

// Test that our index get_layout returns a usable layout size.
#[test]
fn create_sized_index() {
    let blob = Aligned::new(&virt_blob());
    let devtree = DevTree::new(blob.get()).unwrap();
    let layout = DevTreeIndex::get_layout(&devtree).unwrap();
    let mut vec = vec![0u8; layout.size() + layout.align()];
    DevTreeIndex::new(devtree, vec.as_mut_slice()).unwrap();
}

// Test that an invalid buffer size results in NotEnoughMemory on index allocation.
#[test]
fn expect_create_index_layout_fails_with_invalid_layout() {
    let blob = Aligned::new(&virt_blob());
    let devtree = DevTree::new(blob.get()).unwrap();
    let layout = DevTreeIndex::get_layout(&devtree).unwrap();
    let mut vec = vec![0u8; layout.size() - 1];
    DevTreeIndex::new(devtree, vec.as_mut_slice()).expect_err("Expected failure.");
}

// Test DFS iteration using a DevTreeIndex.
#[test]
fn dfs_iteration() {
    let blob = Aligned::new(&virt_blob());
    let devtree = DevTree::new(blob.get()).unwrap();
    let mut vec = index_buffer(&devtree);
    let index = DevTreeIndex::new(devtree, vec.as_mut_slice()).unwrap();
    test_index_dfs(&index);
}

// Test that iteration over children works as expected.
#[test]
fn verify_root_children_iteration() {
    let blob = Aligned::new(&virt_blob());
    let devtree = DevTree::new(blob.get()).unwrap();
    let mut vec = index_buffer(&devtree);
    let index = DevTreeIndex::new(devtree, vec.as_mut_slice()).unwrap();
    let root = index.root();
    let mut children = root.children();
    let mut count = 0;
    while let Some(_) = children.next() {
        count += 1;
    }
    assert_eq!(count, 18);
}

// Test that comparision of nodes works as expected.
#[test]
fn verify_root_children_comparisions() {
    let blob = Aligned::new(&virt_blob());
    let devtree = DevTree::new(blob.get()).unwrap();
    let mut vec = index_buffer(&devtree);
    let index = DevTreeIndex::new(devtree, vec.as_mut_slice()).unwrap();
    let root = index.root();

    let mut prev: Option<DevTreeIndexNode> = None;
    let mut children = root.children();
    while let Some(child) = children.next() {
        assert!(root.is_parent_of(&child));
        if let Some(prev_child) = &prev {
            assert!(child.is_sibling_of(prev_child));
            assert!(prev_child != &child);
        }
        prev = Some(child);
    }
}

#[test]
fn index_tests_get_memory_prop_node() {
    let blob = Aligned::new(&virt_blob());
    let devtree = DevTree::new(blob.get()).unwrap();
    let mut vec = index_buffer(&devtree);
    let index = DevTreeIndex::new(devtree, vec.as_mut_slice()).unwrap();

    let mut props = index.props();
    let mem_prop = find_index_prop(
        || props.next(),
        |p| p.name() == Ok("device_type") && p.str() == Ok("memory"),
    )
    .expect("Unable to find memory node.");
    let mem_node = mem_prop.node();

    let mut props = mem_node.props();
    let _ = find_index_prop(|| props.next(), |p| p.name() == Ok("reg"))
        .expect("Device tree memory node missing 'reg' prop.");
}

// Test iteration over the root nodes props.
#[test]
fn root_prop_iteration() {
    let blob = Aligned::new(&virt_blob());
    let devtree = DevTree::new(blob.get()).unwrap();
    let mut vec = index_buffer(&devtree);
    let index = DevTreeIndex::new(devtree, vec.as_mut_slice()).unwrap();
    test_root_prop_iteration(&index);
}

#[test]
fn test_prop_iteration_() {
    let blob = Aligned::new(&virt_blob());
    let devtree = DevTree::new(blob.get()).unwrap();
    let mut vec = index_buffer(&devtree);
    let index = DevTreeIndex::new(devtree, vec.as_mut_slice()).unwrap();
    test_prop_iteration(&index);
}

fn test_prop_iteration(index: &DevTreeIndex) {
    let mut iter = index.props();
    let mut count = 0;
    while let Some(_) = iter.next() {
        count += 1;
    }
    assert_eq!(count, 105);
}

fn test_root_prop_iteration(index: &DevTreeIndex) {
    let root_props = &["#address-cells", "#size-cells", "compatible", "model"];

    let iter = index.root().props();
    let mut pairs = iter.clone();
    for expected in root_props {
        let prop = pairs.next().unwrap();
        assert_eq!(prop.name().unwrap(), *expected);
    }
    let mut iter = iter;
    let mut count = 0;
    while let Some(_) = iter.next() {
        count += 1;
    }
    assert!(count == root_props.len());
}

fn test_index_dfs(index: &DevTreeIndex) {
    let iter = index.nodes();
    let mut pairs = iter.clone();
    for expected in DFS_NODES {
        let node = pairs.next().unwrap();
        assert_eq!(node.name().unwrap(), *expected);
    }
    let mut iter = iter;
    let mut count = 0;
    while let Some(_) = iter.next() {
        count += 1;
    }
    assert_eq!(count, DFS_NODES.len());
}

#[test]
fn get_child_nodes() {
    let blob = Aligned::new(&virt_blob());
    let dt = DevTree::new(blob.get()).unwrap();
    let cpus = dt.node_at_path(&["cpus"]).unwrap().unwrap();
    let mut names = Vec::new();
    let mut iter = cpus.child_nodes();
    while let Some(node) = iter.next().unwrap() {
        names.push(node.name().unwrap());
    }
    assert_eq!(names, ["cpu-map", "cpu@0"]);
}

#[test]
fn index_agrees_with_the_parser() {
    let blob = Aligned::new(&virt_blob());
    let devtree = DevTree::new(blob.get()).unwrap();
    let mut vec = index_buffer(&devtree);
    let index = DevTreeIndex::new(devtree, vec.as_mut_slice()).unwrap();
    let mut parser = devtree.items();
    let mut walk = index.items();
    let mut count = 0;
    while let Some(item) = parser.next_item().unwrap() {
        let other = walk.next_devtree_item().unwrap();
        match item {
            DevTreeItem::Node(node) => {
                assert_eq!(fdt_rs::prelude::UnwrappableDevTreeItem::node(other).unwrap().name(), node.name());
            }
            DevTreeItem::Prop(prop) => {
                let other = fdt_rs::prelude::UnwrappableDevTreeItem::prop(other).unwrap();
                assert_eq!(other.name(), prop.name());
                assert_eq!(other.raw(), prop.raw());
            }
        }
        count += 1;
    }
    assert!(walk.next_devtree_item().is_none());
    assert_eq!(count, 27 + 105);
    let layout = DevTreeIndex::get_layout(&devtree).unwrap();
    assert_eq!(layout.size(), 27 * 48 + 105 * 24);
}

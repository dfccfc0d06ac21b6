use fdt_rs::base::iters::{DevTreeNodePropFilter, DevTreePropFilter};
use fdt_rs::base::parse::{next_devtree_token, ParsedTok};
use fdt_rs::base::{DevTree, DevTreeItem};
use fdt_rs::error::DevTreeError;
use fdt_rs::index::DevTreeIndex;
use fdt_rs::prelude::{PropReader, SliceRead, UnwrappableDevTreeItem};
use fdt_rs::priv_util::SliceReadError;
use fdt_rs::spec::{FdtTok, FDT_MAGIC, MAX_NODE_NAME_LEN};

/// Writes a flattened device tree, token by token.
struct BlobWriter {
    structs: Vec<u8>,
    strings: Vec<u8>,
}

impl BlobWriter {
    fn new() -> Self {
        BlobWriter { structs: Vec::new(), strings: Vec::new() }
    }

    fn token(&mut self, code: u32) {
        self.structs.extend_from_slice(&code.to_be_bytes());
    }

    fn pad(&mut self) {
        while self.structs.len() % 4 != 0 {
            self.structs.push(0);
        }
    }

    fn begin(&mut self, name: &str) {
        self.token(1);
        self.structs.extend_from_slice(name.as_bytes());
        self.structs.push(0);
        self.pad();
    }

    fn end(&mut self) {
        self.token(2);
    }

    fn nop(&mut self) {
        self.token(4);
    }

    fn name_offset(&mut self, name: &str) -> u32 {
        let wanted = name.as_bytes();
        let mut start = 0;
        while start < self.strings.len() {
            let mut stop = start;
            while self.strings[stop] != 0 {
                stop += 1;
            }
            if &self.strings[start..stop] == wanted {
                return start as u32;
            }
            start = stop + 1;
        }
        let at = self.strings.len() as u32;
        self.strings.extend_from_slice(wanted);
        self.strings.push(0);
        at
    }

    fn prop(&mut self, name: &str, value: &[u8]) {
        let nameoff = self.name_offset(name);
        self.token(3);
        self.structs.extend_from_slice(&(value.len() as u32).to_be_bytes());
        self.structs.extend_from_slice(&nameoff.to_be_bytes());
        self.structs.extend_from_slice(value);
        self.pad();
    }

    fn cells(&mut self, name: &str, cells: &[u32]) {
        let mut value = Vec::new();
        for cell in cells {
            value.extend_from_slice(&cell.to_be_bytes());
        }
        self.prop(name, &value);
    }

    fn string(&mut self, name: &str, text: &str) {
        let mut value = text.as_bytes().to_vec();
        value.push(0);
        self.prop(name, &value);
    }

    fn strings(&mut self, name: &str, texts: &[&str]) {
        let mut value = Vec::new();
        for text in texts {
            value.extend_from_slice(text.as_bytes());
            value.push(0);
        }
        self.prop(name, &value);
    }

    fn finish(mut self, reserved: &[(u64, u64)]) -> Vec<u8> {
        self.token(9);
        let off_mem_rsvmap = 40usize;
        let off_dt_struct = off_mem_rsvmap + 16 * (reserved.len() + 1);
        let off_dt_strings = off_dt_struct + self.structs.len();
        let totalsize = off_dt_strings + self.strings.len();
        let mut blob = Vec::new();
        for field in [
            0xd00d_feedu32,
            totalsize as u32,
            off_dt_struct as u32,
            off_dt_strings as u32,
            off_mem_rsvmap as u32,
            17,
            16,
            0,
            self.strings.len() as u32,
            self.structs.len() as u32,
        ] {
            blob.extend_from_slice(&field.to_be_bytes());
        }
        for (address, size) in reserved {
            blob.extend_from_slice(&address.to_be_bytes());
            blob.extend_from_slice(&size.to_be_bytes());
        }
        blob.extend_from_slice(&[0u8; 16]);
        blob.extend_from_slice(&self.structs);
        blob.extend_from_slice(&self.strings);
        blob
    }
}

/// A buffer that holds a blob at an address that is a multiple of four.
struct Aligned {
    bytes: Vec<u8>,
    start: usize,
    len: usize,
}

impl Aligned {
    fn new(blob: &[u8]) -> Self {
        let mut bytes = vec![0u8; blob.len() + 4];
        let start = (4 - bytes.as_ptr() as usize % 4) % 4;
        bytes[start..start + blob.len()].copy_from_slice(blob);
        Aligned { bytes, start, len: blob.len() }
    }

    fn get(&self) -> &[u8] {
        &self.bytes[self.start..self.start + self.len]
    }

    /// The same bytes, one byte further on: at an address that is no multiple of four.
    fn unaligned(blob: &[u8]) -> Self {
        let mut bytes = vec![0u8; blob.len() + 8];
        let start = (4 - bytes.as_ptr() as usize % 4) % 4 + 1;
        bytes[start..start + blob.len()].copy_from_slice(blob);
        Aligned { bytes, start, len: blob.len() }
    }
}

/// A small tree: a root with two properties and two children, one of them with a child.
fn small_blob() -> Vec<u8> {
    let mut w = BlobWriter::new();
    w.begin("");
    w.strings("compatible", &["acme,board", "acme,generic"]);
    w.cells("serial", &[0x0102_0304, 0x0506_0708]);
    w.begin("alpha");
    w.prop("empty", &[]);
    w.nop();
    w.begin("inner");
    w.string("compatible", "acme,inner");
    w.end();
    w.end();
    w.begin("beta");
    w.strings("compatible", &["acme,first", "acme,generic"]);
    w.end();
    w.end();
    w.finish(&[(0x8000_0000, 0x1000), (0x9000_0000, 0x20)])
}

fn open(blob: &Aligned) -> DevTree<'_> {
    DevTree::new(blob.get()).unwrap()
}

#[test]
fn big_endian_reads_are_exact() {
    let bytes: &[u8] = &[0x12, 0x34, 0x56, 0x78, 0x9a, 0xbc, 0xde, 0xf0, 0x11];
    assert_eq!(bytes.read_be_u32(0).unwrap(), 0x1234_5678);
    assert_eq!(bytes.read_be_u32(1).unwrap(), 0x3456_789a);
    assert_eq!(bytes.read_be_u32(5).unwrap(), 0xbcde_f011);
    assert_eq!(bytes.read_be_u64(0).unwrap(), 0x1234_5678_9abc_def0);
    assert_eq!(bytes.read_be_u64(1).unwrap(), 0x3456_789a_bcde_f011);
    assert_eq!(bytes.unchecked_read_be_u32(4).unwrap(), 0x9abc_def0);
    assert_eq!(bytes.unchecked_read_be_u64(0).unwrap(), 0x1234_5678_9abc_def0);
}

#[test]
fn reads_past_the_end_fail() {
    let bytes: &[u8] = &[1, 2, 3, 4, 5, 6, 7, 8];
    assert!(matches!(bytes.read_be_u32(5), Err(SliceReadError::UnexpectedEndOfInput)));
    assert!(matches!(bytes.read_be_u32(usize::MAX), Err(SliceReadError::UnexpectedEndOfInput)));
    assert!(matches!(bytes.read_be_u64(1), Err(SliceReadError::UnexpectedEndOfInput)));
    assert!(matches!(bytes.unchecked_read_be_u32(6), Err(SliceReadError::InvalidOffset(6, 4))));
    assert!(matches!(bytes.unchecked_read_be_u64(4), Err(SliceReadError::InvalidOffset(4, 8))));
}

#[test]
fn byte_strings_end_at_the_first_zero() {
    let bytes: &[u8] = b"ab\0cde\0fg";
    assert_eq!(bytes.read_bstring0(0).unwrap(), b"ab");
    assert_eq!(bytes.read_bstring0(2).unwrap(), b"");
    assert_eq!(bytes.read_bstring0(3).unwrap(), b"cde");
    assert!(matches!(bytes.read_bstring0(7), Err(SliceReadError::UnexpectedEndOfInput)));
    assert!(matches!(bytes.read_bstring0(100), Err(SliceReadError::UnexpectedEndOfInput)));
    assert_eq!(bytes.nread_bstring0(3, 4).unwrap(), b"cde");
    assert!(matches!(bytes.nread_bstring0(3, 3), Err(SliceReadError::UnexpectedEndOfInput)));
    assert!(matches!(bytes.nread_bstring0(3, 0), Err(SliceReadError::UnexpectedEndOfInput)));
    assert_eq!(bytes.nread_bstring0(3, usize::MAX).unwrap(), b"cde");
}

#[test]
fn token_codes() {
    assert_eq!(FdtTok::from_u32(1), Some(FdtTok::BeginNode));
    assert_eq!(FdtTok::from_u32(2), Some(FdtTok::EndNode));
    assert_eq!(FdtTok::from_u32(3), Some(FdtTok::Prop));
    assert_eq!(FdtTok::from_u32(4), Some(FdtTok::Nop));
    assert_eq!(FdtTok::from_u32(9), Some(FdtTok::End));
    assert_eq!(FdtTok::from_u32(0), None);
    assert_eq!(FdtTok::from_u32(5), None);
    assert_eq!(FdtTok::End.code(), 9);
    assert_eq!(FdtTok::Prop.code(), 3);
}

#[test]
fn header_fields() {
    let blob = Aligned::new(&small_blob());
    let fdt = open(&blob);
    assert_eq!(fdt.magic(), FDT_MAGIC);
    assert_eq!(fdt.totalsize(), blob.get().len());
    assert_eq!(fdt.off_mem_rsvmap(), 40);
    assert_eq!(fdt.off_dt_struct(), 40 + 3 * 16);
    assert_eq!(fdt.version(), 17);
    assert_eq!(fdt.last_comp_version(), 16);
    assert_eq!(fdt.boot_cpuid_phys(), 0);
    assert_eq!(
        fdt.off_dt_strings() + fdt.size_dt_strings() as usize,
        fdt.totalsize()
    );
    assert_eq!(
        fdt.off_dt_struct() + fdt.size_dt_struct() as usize,
        fdt.off_dt_strings()
    );
    assert_eq!(fdt.buf(), blob.get());
    assert_eq!(DevTree::MIN_HEADER_SIZE, 40);
    assert!(DevTree::verify_magic(blob.get()).is_ok());
    assert_eq!(DevTree::read_totalsize(&blob.get()[..8]), Ok(blob.get().len()));
}

#[test]
fn unaligned_buffer_is_an_invalid_parameter() {
    let blob = Aligned::unaligned(&small_blob());
    assert!(matches!(DevTree::new(blob.get()), Err(DevTreeError::InvalidParameter(_))));
    assert!(matches!(
        DevTree::read_totalsize(blob.get()),
        Err(DevTreeError::InvalidParameter(_))
    ));
    let bytes = small_blob();
    assert!(matches!(DevTree::new_at(&bytes, 0x1002), Err(DevTreeError::InvalidParameter(_))));
    assert!(DevTree::new_at(&bytes, 0x1004).is_ok());
}

#[test]
fn flipped_magic_is_an_invalid_magic_number() {
    for byte in 0..4 {
        let mut bytes = small_blob();
        bytes[byte] ^= 0x01;
        let blob = Aligned::new(&bytes);
        assert!(matches!(DevTree::new(blob.get()), Err(DevTreeError::InvalidMagicNumber)));
        assert!(matches!(
            DevTree::verify_magic(blob.get()),
            Err(DevTreeError::InvalidMagicNumber)
        ));
    }
}

#[test]
fn truncated_blob_is_a_parse_error() {
    let bytes = small_blob();
    let blob = Aligned::new(&bytes[..bytes.len() - 4]);
    assert!(matches!(DevTree::new(blob.get()), Err(DevTreeError::ParseError)));
    let blob = Aligned::new(&bytes[..44]);
    assert!(matches!(DevTree::new(blob.get()), Err(DevTreeError::ParseError)));
}

#[test]
fn buffer_longer_than_the_blob_is_a_parse_error() {
    let mut bytes = small_blob();
    bytes.extend_from_slice(&[0; 4]);
    let blob = Aligned::new(&bytes);
    assert!(matches!(DevTree::new(blob.get()), Err(DevTreeError::ParseError)));
}

#[test]
fn short_buffers_are_parse_errors() {
    let bytes = small_blob();
    for len in [0usize, 3, 4, 7, 8, 39] {
        let blob = Aligned::new(&bytes[..len]);
        assert!(matches!(DevTree::new(blob.get()), Err(DevTreeError::ParseError)));
    }
    let blob = Aligned::new(&bytes[..3]);
    assert!(matches!(DevTree::verify_magic(blob.get()), Err(DevTreeError::ParseError)));
    let blob = Aligned::new(&bytes[..7]);
    assert!(matches!(DevTree::read_totalsize(blob.get()), Err(DevTreeError::ParseError)));
}

#[test]
fn unaligned_blocks_are_parse_errors() {
    let mut bytes = small_blob();
    bytes[11] = 90;
    let blob = Aligned::new(&bytes);
    assert!(matches!(DevTree::new(blob.get()), Err(DevTreeError::ParseError)));
    let mut bytes = small_blob();
    bytes[19] = 42;
    let blob = Aligned::new(&bytes);
    assert!(matches!(DevTree::new(blob.get()), Err(DevTreeError::ParseError)));
}

#[test]
fn tokens_of_a_small_blob() {
    let blob = Aligned::new(&small_blob());
    let fdt = open(&blob);
    let mut iter = fdt.parse_iter();
    let mut kinds = Vec::new();
    loop {
        let before = iter.offset;
        match iter.next().unwrap() {
            Some(ParsedTok::BeginNode(node)) => {
                kinds.push(format!("begin {}", String::from_utf8_lossy(node.name)));
            }
            Some(ParsedTok::EndNode) => kinds.push("end".to_string()),
            Some(ParsedTok::Prop(prop)) => kinds.push(format!("prop {}", prop.prop_buf.len())),
            Some(ParsedTok::Nop) => kinds.push("nop".to_string()),
            None => {
                // the cursor stays at the token that ends the block
                assert_eq!(iter.offset, before);
                assert!(iter.next().unwrap().is_none());
                break;
            }
        }
        assert!(iter.offset >= before + 4);
        assert_eq!(iter.offset % 4, 0);
    }
    assert_eq!(
        kinds,
        [
            "begin ", "prop 24", "prop 8", "begin alpha", "prop 0", "nop", "begin inner",
            "prop 11", "end", "end", "begin beta", "prop 24", "end", "end"
        ]
    );
}

#[test]
fn tokenizer_errors_leave_the_cursor() {
    // an unknown token
    let bytes: &[u8] = &[0, 0, 0, 7, 0, 0, 0, 9];
    let mut off = 0;
    assert!(matches!(next_devtree_token(bytes, &mut off), Err(DevTreeError::ParseError)));
    assert_eq!(off, 0);
    // no room for a token
    let mut off = 6;
    assert!(matches!(next_devtree_token(bytes, &mut off), Err(DevTreeError::ParseError)));
    assert_eq!(off, 6);
    let mut off = usize::MAX;
    assert!(matches!(next_devtree_token(bytes, &mut off), Err(DevTreeError::ParseError)));
    // a property whose value leaves the buffer
    let bytes: &[u8] = &[0, 0, 0, 3, 0, 0, 0, 5, 0, 0, 0, 0, 1, 2, 3, 4];
    let mut off = 0;
    assert!(matches!(next_devtree_token(bytes, &mut off), Err(DevTreeError::ParseError)));
    assert_eq!(off, 0);
    // a property whose name lies behind the buffer
    let bytes: &[u8] = &[0, 0, 0, 3, 0, 0, 0, 1, 0, 0, 0, 17, 1, 0, 0, 0];
    let mut off = 0;
    assert!(matches!(next_devtree_token(bytes, &mut off), Err(DevTreeError::ParseError)));
    // a name without its zero byte
    let bytes: &[u8] = &[0, 0, 0, 1, b'a', b'b', b'c', b'd'];
    let mut off = 0;
    assert!(matches!(next_devtree_token(bytes, &mut off), Err(DevTreeError::ParseError)));
    assert_eq!(off, 0);
}

#[test]
fn tokenizer_rounds_the_cursor_up() {
    let bytes: &[u8] = &[0, 0, 0, 1, b'a', b'b', b'c', b'd', 0, 0, 0, 0, 0, 0, 0, 2];
    let mut off = 0;
    match next_devtree_token(bytes, &mut off).unwrap() {
        Some(ParsedTok::BeginNode(node)) => assert_eq!(node.name, b"abcd"),
        _ => panic!("expected a node"),
    }
    assert_eq!(off, 12);
    assert!(matches!(next_devtree_token(bytes, &mut off), Ok(Some(ParsedTok::EndNode))));
    assert_eq!(off, 16);
    let bytes: &[u8] = &[0, 0, 0, 3, 0, 0, 0, 5, 0, 0, 0, 2, 1, 2, 3, 4, 5, 0, 0, 0];
    let mut off = 0;
    match next_devtree_token(bytes, &mut off).unwrap() {
        Some(ParsedTok::Prop(prop)) => {
            assert_eq!(prop.prop_buf, [1, 2, 3, 4, 5]);
            assert_eq!(prop.name_offset, 2);
        }
        _ => panic!("expected a property"),
    }
    assert_eq!(off, 20);
}

#[test]
fn node_names_are_bounded() {
    assert_eq!(MAX_NODE_NAME_LEN, 32);
    let longest = "a".repeat(MAX_NODE_NAME_LEN - 2);
    let mut w = BlobWriter::new();
    w.begin(&longest);
    w.end();
    let blob = Aligned::new(&w.finish(&[]));
    let fdt = open(&blob);
    let root = fdt.root().unwrap().unwrap();
    assert_eq!(root.name().unwrap(), longest);

    let too_long = "a".repeat(MAX_NODE_NAME_LEN - 1);
    let mut w = BlobWriter::new();
    w.begin(&too_long);
    w.end();
    let blob = Aligned::new(&w.finish(&[]));
    let fdt = open(&blob);
    assert!(matches!(fdt.root(), Err(DevTreeError::ParseError)));
}

#[test]
fn reserved_entries_are_read_up_to_the_zero_pair() {
    let blob = Aligned::new(&small_blob());
    let fdt = open(&blob);
    let mut iter = fdt.reserved_entries();
    let first = iter.next().unwrap();
    assert_eq!((first.address, first.size), (0x8000_0000, 0x1000));
    let second = iter.next().unwrap();
    assert_eq!((second.address, second.size), (0x9000_0000, 0x20));
    assert!(iter.next().is_none());
    assert!(iter.next().is_none());
}

#[test]
fn reserved_entries_end_with_the_buffer() {
    // a header whose reservation block starts at the last eight bytes of the blob
    let mut bytes = small_blob();
    let at = (bytes.len() - 8) as u32 / 4 * 4;
    bytes[16..20].copy_from_slice(&at.to_be_bytes());
    let blob = Aligned::new(&bytes);
    let fdt = open(&blob);
    assert!(fdt.reserved_entries().next().is_none());
}

#[test]
fn items_in_the_order_of_the_blob() {
    let blob = Aligned::new(&small_blob());
    let fdt = open(&blob);
    let mut iter = fdt.items();
    let mut seen = Vec::new();
    while let Some(item) = iter.next_item().unwrap() {
        match item {
            DevTreeItem::Node(node) => seen.push(format!("node {}", node.name().unwrap())),
            DevTreeItem::Prop(prop) => seen.push(format!("prop {}", prop.name().unwrap())),
        }
    }
    assert_eq!(
        seen,
        [
            "node ", "prop compatible", "prop serial", "node alpha", "prop empty", "node inner",
            "prop compatible", "node beta", "prop compatible"
        ]
    );
    // the end of the block is handed out again and again
    assert!(iter.next_item().unwrap().is_none());
    assert!(iter.next_node().unwrap().is_none());
    assert!(iter.next_prop().unwrap().is_none());
}

#[test]
fn typed_reads_of_a_value() {
    let blob = Aligned::new(&small_blob());
    let fdt = open(&blob);
    let mut props = fdt.props();
    let _compatible = props.next().unwrap().unwrap();
    let serial = props.next().unwrap().unwrap();
    assert_eq!(serial.name().unwrap(), "serial");
    assert_eq!(serial.length(), 8);
    assert_eq!(serial.raw(), [1, 2, 3, 4, 5, 6, 7, 8]);
    assert_eq!(serial.u32(0), Ok(0x0102_0304));
    assert_eq!(serial.u32(4), Ok(0x0506_0708));
    assert_eq!(serial.u32(1), Ok(0x0203_0405));
    assert_eq!(serial.phandle(4), Ok(0x0506_0708));
    assert_eq!(serial.u64(0), Ok(0x0102_0304_0506_0708));
    assert_eq!(serial.u32(5), Err(DevTreeError::InvalidOffset));
    assert_eq!(serial.u64(1), Err(DevTreeError::InvalidOffset));
    assert_eq!(serial.phandle(8), Err(DevTreeError::InvalidOffset));
    assert_eq!(serial.u32(usize::MAX), Err(DevTreeError::InvalidOffset));
}

#[test]
fn strings_of_a_value() {
    let blob = Aligned::new(&small_blob());
    let fdt = open(&blob);
    let compatible = fdt.props().next().unwrap().unwrap();
    assert_eq!(compatible.str(), Ok("acme,board"));
    let mut strings = compatible.iter_str();
    assert_eq!(strings.next(), Ok(Some("acme,board")));
    assert_eq!(strings.next(), Ok(Some("acme,generic")));
    assert_eq!(strings.next(), Ok(None));
    assert_eq!(strings.next(), Ok(None));
    // the first string is the first of the walk
    assert_eq!(compatible.str().unwrap(), compatible.iter_str().next().unwrap().unwrap());
}

#[test]
fn empty_value_has_no_string() {
    let blob = Aligned::new(&small_blob());
    let fdt = open(&blob);
    let alpha = fdt.node_at_path(&["alpha"]).unwrap().unwrap();
    let empty = alpha.props().next().unwrap().unwrap();
    assert_eq!(empty.name().unwrap(), "empty");
    assert_eq!(empty.length(), 0);
    assert_eq!(empty.iter_str().next(), Ok(None));
    assert_eq!(empty.str(), Err(DevTreeError::ParseError));
    assert_eq!(empty.u32(0), Err(DevTreeError::InvalidOffset));
}

#[test]
fn unterminated_and_invalid_strings() {
    let mut w = BlobWriter::new();
    w.begin("");
    w.prop("open", b"abc");
    w.prop("bad", &[0xff, 0xfe, 0]);
    w.prop("mixed", &[b'o', b'k', 0, 0xc3, 0]);
    w.end();
    let blob = Aligned::new(&w.finish(&[]));
    let fdt = open(&blob);
    let mut props = fdt.props();
    let open_prop = props.next().unwrap().unwrap();
    assert_eq!(open_prop.str(), Err(DevTreeError::ParseError));
    assert_eq!(open_prop.iter_str().next(), Err(DevTreeError::ParseError));
    let bad = props.next().unwrap().unwrap();
    assert!(matches!(bad.str(), Err(DevTreeError::StrError(_))));
    let mixed = props.next().unwrap().unwrap();
    let mut strings = mixed.iter_str();
    assert_eq!(strings.next(), Ok(Some("ok")));
    assert!(matches!(strings.next(), Err(DevTreeError::StrError(_))));
}

#[test]
fn names_that_are_no_strings() {
    let mut w = BlobWriter::new();
    w.begin("");
    w.begin("n\u{e9}");
    w.end();
    w.end();
    let mut bytes = w.finish(&[]);
    // the second byte of the two that stand for the letter is spoilt
    let at = bytes.windows(2).position(|pair| pair == [0xc3, 0xa9]).unwrap();
    bytes[at + 1] = b'x';
    let blob = Aligned::new(&bytes);
    let fdt = open(&blob);
    let mut nodes = fdt.nodes();
    assert_eq!(nodes.next().unwrap().unwrap().name(), Ok(""));
    let spoilt = nodes.next().unwrap().unwrap();
    assert!(matches!(spoilt.name(), Err(DevTreeError::StrError(_))));
    // a name that cannot be read does not end the walk
    assert!(nodes.next().unwrap().is_none());
}

#[test]
fn property_name_behind_the_strings_block() {
    let mut bytes = small_blob();
    let fdt_struct = 40 + 3 * 16;
    // the first property of the root: its name offset is the third word behind the token
    let at = fdt_struct + 8 + 8;
    let len = bytes.len() as u32;
    bytes[at..at + 4].copy_from_slice(&len.to_be_bytes());
    let blob = Aligned::new(&bytes);
    let fdt = open(&blob);
    let prop = fdt.props().next().unwrap().unwrap();
    assert_eq!(prop.name(), Err(DevTreeError::ParseError));
}

#[test]
fn property_before_any_node_is_a_parse_error() {
    let mut w = BlobWriter::new();
    w.cells("stray", &[1]);
    w.begin("");
    w.end();
    let blob = Aligned::new(&w.finish(&[]));
    let fdt = open(&blob);
    assert!(matches!(fdt.items().next_item(), Err(DevTreeError::ParseError)));
    assert!(matches!(fdt.nodes().next(), Err(DevTreeError::ParseError)));
    assert!(matches!(fdt.props().next(), Err(DevTreeError::ParseError)));
    assert!(matches!(fdt.root(), Err(DevTreeError::ParseError)));
    // the error is handed out again
    let mut iter = fdt.items();
    assert!(matches!(iter.next_item(), Err(DevTreeError::ParseError)));
    assert!(matches!(iter.next_item(), Err(DevTreeError::ParseError)));
    assert!(matches!(DevTreeIndex::get_layout(&fdt), Err(DevTreeError::ParseError)));
    let mut arena = vec![0u8; 1024];
    assert!(matches!(DevTreeIndex::new(fdt, &mut arena), Err(DevTreeError::ParseError)));
}

#[test]
fn property_behind_a_child_is_a_parse_error() {
    let mut w = BlobWriter::new();
    w.begin("");
    w.begin("child");
    w.end();
    w.cells("late", &[1]);
    w.end();
    let blob = Aligned::new(&w.finish(&[]));
    let fdt = open(&blob);
    let mut iter = fdt.items();
    assert!(matches!(iter.next_item(), Ok(Some(DevTreeItem::Node(_)))));
    assert!(matches!(iter.next_item(), Ok(Some(DevTreeItem::Node(_)))));
    assert!(matches!(iter.next_item(), Err(DevTreeError::ParseError)));
    let mut arena = vec![0u8; 1024];
    assert!(matches!(DevTreeIndex::new(fdt, &mut arena), Err(DevTreeError::ParseError)));
}

#[test]
fn unbalanced_end_node_is_a_parse_error_for_the_index() {
    let mut w = BlobWriter::new();
    w.begin("");
    w.end();
    w.end();
    let blob = Aligned::new(&w.finish(&[]));
    let fdt = open(&blob);
    let mut arena = vec![0u8; 1024];
    assert!(matches!(DevTreeIndex::new(fdt, &mut arena), Err(DevTreeError::ParseError)));
    // the in-order parser passes over it
    let mut nodes = fdt.nodes();
    assert!(nodes.next().unwrap().is_some());
    assert!(nodes.next().unwrap().is_none());
}

#[test]
fn block_without_a_node_has_no_index() {
    let mut w = BlobWriter::new();
    w.nop();
    let blob = Aligned::new(&w.finish(&[]));
    let fdt = open(&blob);
    assert!(fdt.root().unwrap().is_none());
    let layout = DevTreeIndex::get_layout(&fdt).unwrap();
    assert_eq!(layout.size(), 0);
    let mut arena = vec![0u8; 64];
    assert!(matches!(DevTreeIndex::new(fdt, &mut arena), Err(DevTreeError::ParseError)));
}

#[test]
fn layout_is_exact() {
    let blob = Aligned::new(&small_blob());
    let fdt = open(&blob);
    let layout = DevTreeIndex::get_layout(&fdt).unwrap();
    // four nodes of six words, five properties of three words
    assert_eq!(layout.size(), 8 * (4 * 6 + 5 * 3));
    assert_eq!(layout.align(), 8);
    let mut arena = vec![0u8; layout.size()];
    assert!(DevTreeIndex::new(fdt, &mut arena).is_ok());
    let mut arena = vec![0u8; layout.size() - 1];
    assert!(matches!(DevTreeIndex::new(fdt, &mut arena), Err(DevTreeError::NotEnoughMemory)));
    let mut arena = vec![0u8; layout.size() - 8];
    assert!(matches!(DevTreeIndex::new(fdt, &mut arena), Err(DevTreeError::NotEnoughMemory)));
    let mut arena = vec![0u8; 0];
    assert!(matches!(DevTreeIndex::new(fdt, &mut arena), Err(DevTreeError::NotEnoughMemory)));
}

fn stream_items(fdt: &DevTree) -> Vec<(bool, String, Vec<u8>)> {
    let mut seen = Vec::new();
    let mut iter = fdt.items();
    while let Some(item) = iter.next_item().unwrap() {
        match item {
            DevTreeItem::Node(node) => seen.push((true, node.name().unwrap().to_string(), vec![])),
            DevTreeItem::Prop(prop) => {
                seen.push((false, prop.name().unwrap().to_string(), prop.raw().to_vec()))
            }
        }
    }
    seen
}

fn index_items(index: &DevTreeIndex) -> Vec<(bool, String, Vec<u8>)> {
    let mut seen = Vec::new();
    let mut iter = index.items();
    while let Some(item) = iter.next_devtree_item() {
        if let Some(node) = item.node() {
            seen.push((true, node.name().unwrap().to_string(), vec![]));
        } else if let Some(prop) = item.prop() {
            seen.push((false, prop.name().unwrap().to_string(), prop.raw().to_vec()));
        }
    }
    seen
}

#[test]
fn index_hands_out_what_the_parser_hands_out() {
    let blob = Aligned::new(&small_blob());
    let fdt = open(&blob);
    let mut arena = vec![0u8; DevTreeIndex::get_layout(&fdt).unwrap().size()];
    let index = DevTreeIndex::new(fdt, &mut arena).unwrap();
    assert_eq!(index_items(&index), stream_items(&fdt));
    assert_eq!(index_items(&index).len(), 9);

    let mut stream_nodes = fdt.nodes();
    let mut index_nodes = index.nodes();
    let mut count = 0;
    while let Some(node) = stream_nodes.next().unwrap() {
        assert_eq!(index_nodes.next().unwrap().name(), node.name());
        count += 1;
    }
    assert!(index_nodes.next().is_none());
    assert_eq!(count, 4);
}

#[test]
fn index_built_twice_is_the_same() {
    let blob = Aligned::new(&small_blob());
    let fdt = open(&blob);
    let size = DevTreeIndex::get_layout(&fdt).unwrap().size();
    let mut first = vec![0u8; size];
    let mut second = vec![0xffu8; size + 40];
    let a = DevTreeIndex::new(fdt, &mut first).unwrap();
    let b = DevTreeIndex::new(fdt, &mut second).unwrap();
    assert_eq!(index_items(&a), index_items(&b));
}

#[test]
fn index_links() {
    let blob = Aligned::new(&small_blob());
    let fdt = open(&blob);
    let mut arena = vec![0u8; DevTreeIndex::get_layout(&fdt).unwrap().size()];
    let index = DevTreeIndex::new(fdt, &mut arena).unwrap();
    let root = index.root();
    assert!(root.parent().is_none());
    assert!(root.next_sibling().is_none());
    let alpha = root.first_child().unwrap();
    assert_eq!(alpha.name(), Ok("alpha"));
    assert!(alpha.parent().unwrap() == root);
    let inner = alpha.first_child().unwrap();
    assert_eq!(inner.name(), Ok("inner"));
    assert!(inner.first_child().is_none());
    assert!(inner.next_sibling().is_none());
    assert!(inner.parent().unwrap() == alpha);
    let beta = alpha.next_sibling().unwrap();
    assert_eq!(beta.name(), Ok("beta"));
    assert!(beta.next_sibling().is_none());
    assert!(beta.first_child().is_none());
    assert!(beta.next_dfs().is_none());
    assert_eq!(inner.next_dfs().unwrap().name(), Ok("beta"));
    assert_eq!(root.next_dfs().unwrap().name(), Ok("alpha"));
    assert_eq!(alpha.next_dfs().unwrap().name(), Ok("inner"));

    assert!(root.is_parent_of(&alpha));
    assert!(root.is_parent_of(&beta));
    assert!(!root.is_parent_of(&inner));
    assert!(!alpha.is_parent_of(&root));
    assert!(alpha.is_sibling_of(&beta));
    assert!(!alpha.is_sibling_of(&inner));
    assert!(root.is_sibling_of(&root));

    let mut children = root.children();
    assert_eq!(children.next().unwrap().name(), Ok("alpha"));
    let second = children.next().unwrap();
    assert_eq!(second.name(), Ok("beta"));
    assert!(second.parent().unwrap() == root);
    assert!(children.next().is_none());
    assert!(beta.children().next().is_none());

    // a walk over siblings starts with the node itself
    let mut siblings = alpha.siblings();
    assert!(siblings.next().unwrap() == alpha);
    assert_eq!(siblings.next().unwrap().name(), Ok("beta"));
    assert!(siblings.next().is_none());
    let mut siblings = beta.siblings();
    assert!(siblings.next().unwrap() == beta);
    assert!(siblings.next().is_none());
}

#[test]
fn index_properties() {
    let blob = Aligned::new(&small_blob());
    let fdt = open(&blob);
    let mut arena = vec![0u8; DevTreeIndex::get_layout(&fdt).unwrap().size()];
    let index = DevTreeIndex::new(fdt, &mut arena).unwrap();
    let root = index.root();
    let mut props = root.props();
    let compatible = props.next().unwrap();
    assert_eq!(compatible.name(), Ok("compatible"));
    assert_eq!(compatible.str(), Ok("acme,board"));
    assert!(compatible.node() == root);
    let serial = props.next().unwrap();
    assert_eq!(serial.u64(0), Ok(0x0102_0304_0506_0708));
    assert_eq!(serial.length(), 8);
    assert!(props.next().is_none());
    assert_eq!(index.buf(), blob.get());
    assert_eq!(index.fdt().totalsize(), blob.get().len());
}

#[test]
fn compatible_search_walks_the_whole_list() {
    let blob = Aligned::new(&small_blob());
    let fdt = open(&blob);
    let mut found = Vec::new();
    let mut iter = fdt.compatible_nodes("acme,generic");
    while let Some(node) = iter.next().unwrap() {
        found.push(node.name().unwrap().to_string());
    }
    assert_eq!(found, ["", "beta"]);
    assert!(iter.next().unwrap().is_none());

    let mut arena = vec![0u8; DevTreeIndex::get_layout(&fdt).unwrap().size()];
    let index = DevTreeIndex::new(fdt, &mut arena).unwrap();
    let mut found = Vec::new();
    let mut iter = index.compatible_nodes("acme,generic");
    while let Some(node) = iter.next() {
        found.push(node.name().unwrap().to_string());
    }
    assert_eq!(found, ["", "beta"]);

    assert!(fdt.compatible_nodes("acme").next().unwrap().is_none());
    assert!(index.compatible_nodes("acme,gener").next().is_none());
    assert_eq!(
        fdt.compatible_nodes("acme,inner").next().unwrap().unwrap().name(),
        Ok("inner")
    );
    assert_eq!(index.compatible_nodes("acme,inner").next().unwrap().name(), Ok("inner"));
}

#[test]
fn clones_walk_on_their_own() {
    let blob = Aligned::new(&small_blob());
    let fdt = open(&blob);
    let mut first = fdt.items();
    first.next_item().unwrap();
    first.next_item().unwrap();
    let mut second = first.clone();
    assert!(first == second);
    let a = first.next_item().unwrap().unwrap();
    assert!(first != second);
    let b = second.next_item().unwrap().unwrap();
    assert!(first == second);
    match (a, b) {
        (DevTreeItem::Prop(a), DevTreeItem::Prop(b)) => assert!(a == b),
        _ => panic!("expected two properties"),
    }
    while let Some(_) = first.next_item().unwrap() {}
    assert!(matches!(second.next_item(), Ok(Some(DevTreeItem::Node(_)))));
}

#[test]
fn properties_lead_back_to_their_node() {
    let blob = Aligned::new(&small_blob());
    let fdt = open(&blob);
    let mut iter = fdt.items();
    let mut owner = None;
    while let Some(item) = iter.next_item().unwrap() {
        match item {
            DevTreeItem::Node(node) => owner = Some(node),
            DevTreeItem::Prop(prop) => {
                let node = prop.node();
                assert!(Some(node) == owner);
                assert_eq!(node.name(), owner.unwrap().name());
            }
        }
    }
}

#[test]
fn last_node_of_a_parser() {
    let blob = Aligned::new(&small_blob());
    let fdt = open(&blob);
    let mut iter = fdt.items();
    assert!(iter.last_node().is_none());
    let root = iter.next_node().unwrap().unwrap();
    assert!(iter.last_node().unwrap() == root);
    iter.next_prop().unwrap();
    assert!(iter.last_node().unwrap() == root);
}

#[test]
fn node_without_a_later_sibling() {
    let blob = Aligned::new(&small_blob());
    let fdt = open(&blob);
    let beta = fdt.node_at_path(&["beta"]).unwrap().unwrap();
    assert!(beta.next_sibling().unwrap().is_none());
    assert!(beta.siblings().next().unwrap().is_none());
    assert!(beta.siblings_and_descendants().next().unwrap().is_none());
    assert!(beta.children().next().unwrap().is_none());
    assert!(beta.descendants().next().unwrap().is_none());
    let alpha = fdt.node_at_path(&["alpha"]).unwrap().unwrap();
    assert_eq!(alpha.next_sibling().unwrap().unwrap().name(), Ok("beta"));
    let root = fdt.root().unwrap().unwrap();
    assert!(root.next_sibling().unwrap().is_none());
}

#[test]
fn paths() {
    let blob = Aligned::new(&small_blob());
    let fdt = open(&blob);
    assert_eq!(fdt.node_at_path(&[]).unwrap().unwrap().name(), Ok(""));
    assert_eq!(fdt.node_at_path(&["alpha", "inner"]).unwrap().unwrap().name(), Ok("inner"));
    assert!(fdt.node_at_path(&["inner"]).unwrap().is_none());
    assert!(fdt.node_at_path(&["alpha", "beta"]).unwrap().is_none());
    assert!(fdt.node_at_path(&["beta", "inner"]).unwrap().is_none());
    let alpha = fdt.node_at_path(&["alpha"]).unwrap().unwrap();
    assert_eq!(alpha.child_by_name("inner").unwrap().unwrap().name(), Ok("inner"));
    assert!(alpha.child_by_name("beta").unwrap().is_none());
}

#[test]
fn children_are_among_the_descendants() {
    let blob = Aligned::new(&small_blob());
    let fdt = open(&blob);
    let root = fdt.root().unwrap().unwrap();
    let mut below = Vec::new();
    let mut iter = root.descendants();
    while let Some(item) = iter.next().unwrap() {
        match item {
            DevTreeItem::Node(node) => below.push(format!("node {}", node.name().unwrap())),
            DevTreeItem::Prop(prop) => below.push(format!("prop {}", prop.name().unwrap())),
        }
    }
    assert_eq!(
        below,
        ["node alpha", "prop empty", "node inner", "prop compatible", "node beta", "prop compatible"]
    );
    let mut children = Vec::new();
    let mut iter = root.children();
    while let Some(item) = iter.next().unwrap() {
        match item {
            DevTreeItem::Node(node) => children.push(format!("node {}", node.name().unwrap())),
            DevTreeItem::Prop(prop) => children.push(format!("prop {}", prop.name().unwrap())),
        }
    }
    assert_eq!(children, ["node alpha", "prop empty", "node beta", "prop compatible"]);
    let mut rest = below.iter();
    for child in &children {
        assert!(rest.any(|item| item == child));
    }
}

#[test]
fn counts_are_the_counts_of_tokens() {
    let blob = Aligned::new(&small_blob());
    let fdt = open(&blob);
    let mut begin = 0;
    let mut props = 0;
    let mut tokens = fdt.parse_iter();
    while let Some(token) = tokens.next().unwrap() {
        match token {
            ParsedTok::BeginNode(_) => begin += 1,
            ParsedTok::Prop(_) => props += 1,
            _ => {}
        }
    }
    let mut nodes = fdt.nodes();
    let mut node_count = 0;
    while let Some(_) = nodes.next().unwrap() {
        node_count += 1;
    }
    let mut iter = fdt.props();
    let mut prop_count = 0;
    while let Some(_) = iter.next().unwrap() {
        prop_count += 1;
    }
    assert_eq!((node_count, prop_count), (begin, props));
    assert_eq!((node_count, prop_count), (4, 5));
}

#[test]
fn errors_from_reads() {
    assert_eq!(
        DevTreeError::from(SliceReadError::UnexpectedEndOfInput),
        DevTreeError::ParseError
    );
    assert_eq!(DevTreeError::from(SliceReadError::InvalidOffset(1, 4)), DevTreeError::ParseError);
    let error = core::str::from_utf8(&[0xff]).unwrap_err();
    assert_eq!(DevTreeError::from(error), DevTreeError::StrError(error));
}

#[test]
fn handles_of_equal_blobs_are_equal() {
    let first = Aligned::new(&small_blob());
    let second = Aligned::new(&small_blob());
    assert!(open(&first) == open(&second));
    let mut other = small_blob();
    let last = other.len() - 2;
    other[last] ^= 1;
    let third = Aligned::new(&other);
    assert!(open(&first) != open(&third));
}

#[test]
fn nodes_below_a_node() {
    let blob = Aligned::new(&small_blob());
    let fdt = open(&blob);
    let root = fdt.root().unwrap().unwrap();
    let mut names = Vec::new();
    let mut iter = root.descendant_nodes();
    while let Some(node) = iter.next().unwrap() {
        names.push(node.name().unwrap().to_string());
    }
    assert_eq!(names, ["alpha", "inner", "beta"]);

    let mut names = Vec::new();
    let mut iter = root.child_nodes();
    while let Some(node) = iter.next().unwrap() {
        names.push(node.name().unwrap().to_string());
    }
    assert_eq!(names, ["alpha", "beta"]);

    let alpha = fdt.node_at_path(&["alpha"]).unwrap().unwrap();
    let mut names = Vec::new();
    let mut iter = alpha.sibling_nodes();
    while let Some(node) = iter.next().unwrap() {
        names.push(node.name().unwrap().to_string());
    }
    assert_eq!(names, ["beta"]);
    assert!(alpha.child_nodes().next().unwrap().unwrap().name() == Ok("inner"));
    let inner = fdt.node_at_path(&["alpha", "inner"]).unwrap().unwrap();
    assert!(inner.sibling_nodes().next().unwrap().is_none());
    assert!(inner.child_nodes().next().unwrap().is_none());
}

#[test]
fn filters_over_a_walk() {
    let blob = Aligned::new(&small_blob());
    let fdt = open(&blob);
    let mut props = DevTreePropFilter(fdt.items());
    let mut names = Vec::new();
    while let Some(prop) = props.next().unwrap() {
        names.push(prop.name().unwrap().to_string());
    }
    assert_eq!(names, ["compatible", "serial", "empty", "compatible", "compatible"]);

    let mut items = fdt.items();
    items.next_item().unwrap();
    let mut props = DevTreeNodePropFilter(items);
    assert_eq!(props.next().unwrap().unwrap().name(), Ok("compatible"));
    assert_eq!(props.next().unwrap().unwrap().name(), Ok("serial"));
    // the node that comes next ends the walk over the properties
    assert!(props.next().unwrap().is_none());
}

#[test]
fn items_below_a_node_of_an_index() {
    let blob = Aligned::new(&small_blob());
    let fdt = open(&blob);
    let mut arena = vec![0u8; DevTreeIndex::get_layout(&fdt).unwrap().size()];
    let index = DevTreeIndex::new(fdt, &mut arena).unwrap();
    let list = |node: fdt_rs::index::DevTreeIndexNode| {
        let mut seen = Vec::new();
        let mut iter = node.descendants();
        while let Some(item) = iter.next() {
            if let Some(node) = item.node() {
                seen.push(format!("node {}", node.name().unwrap()));
            } else if let Some(prop) = item.prop() {
                seen.push(format!("prop {}", prop.name().unwrap()));
            }
        }
        seen
    };
    let root = index.root();
    assert_eq!(
        list(root),
        ["node alpha", "prop empty", "node inner", "prop compatible", "node beta", "prop compatible"]
    );
    let alpha = root.first_child().unwrap();
    assert_eq!(list(alpha), ["node inner", "prop compatible"]);
    let beta = alpha.next_sibling().unwrap();
    assert!(list(beta).is_empty());
    assert!(list(alpha.first_child().unwrap()).is_empty());
}

#[test]
fn properties_of_an_index_node_by_number() {
    let blob = Aligned::new(&small_blob());
    let fdt = open(&blob);
    let mut arena = vec![0u8; DevTreeIndex::get_layout(&fdt).unwrap().size()];
    let index = DevTreeIndex::new(fdt, &mut arena).unwrap();
    let root = index.root();
    assert_eq!(root.prop(0).unwrap().name(), Ok("compatible"));
    assert_eq!(root.prop(1).unwrap().name(), Ok("serial"));
    assert!(root.prop(2).is_none());
    assert!(root.prop(usize::MAX).is_none());
    let mut walk = index.items();
    let mut clone = walk;
    assert!(walk == clone);
    walk.next_devtree_item();
    assert!(walk != clone);
    clone.next_devtree_item();
    assert!(walk == clone);
}

#[test]
fn several_roots() {
    let mut w = BlobWriter::new();
    w.begin("first");
    w.begin("child");
    w.end();
    w.end();
    w.begin("second");
    w.cells("value", &[1]);
    w.end();
    let blob = Aligned::new(&w.finish(&[]));
    let fdt = open(&blob);
    // the in-order parser hands out every node
    let mut names = Vec::new();
    let mut nodes = fdt.nodes();
    while let Some(node) = nodes.next().unwrap() {
        names.push(node.name().unwrap().to_string());
    }
    assert_eq!(names, ["first", "child", "second"]);
    // the index holds them all, and its walks stay in the tree of the first
    let layout = DevTreeIndex::get_layout(&fdt).unwrap();
    assert_eq!(layout.size(), 8 * (3 * 6 + 3));
    let mut arena = vec![0u8; layout.size()];
    let index = DevTreeIndex::new(fdt, &mut arena).unwrap();
    let mut names = Vec::new();
    let mut nodes = index.nodes();
    while let Some(node) = nodes.next() {
        names.push(node.name().unwrap().to_string());
    }
    assert_eq!(names, ["first", "child"]);
    assert!(index.root().next_sibling().is_none());
}

#[test]
fn next_compatible_node_of_an_index() {
    let blob = Aligned::new(&small_blob());
    let fdt = open(&blob);
    let mut arena = vec![0u8; DevTreeIndex::get_layout(&fdt).unwrap().size()];
    let index = DevTreeIndex::new(fdt, &mut arena).unwrap();
    let root = index.root();
    // the search starts behind the node that it is asked of
    let beta = root.find_next_compatible_node("acme,generic").unwrap();
    assert_eq!(beta.name(), Ok("beta"));
    assert!(beta.find_next_compatible_node("acme,generic").is_none());
    let stream_root = fdt.root().unwrap().unwrap();
    let stream_beta = stream_root.find_next_compatible_node("acme,generic").unwrap().unwrap();
    assert_eq!(stream_beta.name(), Ok("beta"));
    assert!(stream_beta.find_next_compatible_node("acme,generic").unwrap().is_none());
}

#[test]
fn searches_with_a_predicate() {
    let blob = Aligned::new(&small_blob());
    let fdt = open(&blob);
    let mut items = fdt.items();
    let found = items
        .find(|item| match item {
            DevTreeItem::Prop(prop) => Ok(prop.length() == 8),
            DevTreeItem::Node(_) => Ok(false),
        })
        .unwrap()
        .unwrap();
    assert_eq!(found.prop().unwrap().name(), Ok("serial"));
    // the parser is left behind what was found
    assert_eq!(items.next_node().unwrap().unwrap().name(), Ok("alpha"));

    let node = fdt.nodes().find(|node| Ok(node.name()? == "inner")).unwrap().unwrap();
    assert_eq!(node.name(), Ok("inner"));
    assert!(fdt.nodes().find(|node| Ok(node.name()? == "gamma")).unwrap().is_none());

    let prop = fdt.props().find(|prop| Ok(prop.length() == 0)).unwrap().unwrap();
    assert_eq!(prop.name(), Ok("empty"));
    let root = fdt.root().unwrap().unwrap();
    let serial = root.props().find(|prop| Ok(prop.name()? == "serial")).unwrap().unwrap();
    assert_eq!(serial.u32(4), Ok(0x0506_0708));
    // the properties of a node end at its first child
    assert!(root.props().find(|prop| Ok(prop.name()? == "empty")).unwrap().is_none());

    // an error of the predicate ends the search
    let mut props = fdt.props();
    let failed = props.find(|prop| {
        if prop.length() == 8 {
            Err(DevTreeError::InvalidOffset)
        } else {
            Ok(false)
        }
    });
    assert!(matches!(failed, Err(DevTreeError::InvalidOffset)));
    assert_eq!(props.next().unwrap().unwrap().name(), Ok("empty"));
}

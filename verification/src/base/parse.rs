//! Low level flattened device tree parsing functions.
//!
use crate::base::tree::DevTree;
use crate::error::DevTreeError;
use crate::priv_util::{lemma_find_nul, spec_be_u32, spec_find_nul, spec_scan_end, SliceRead};
use crate::spec::{fdt_prop_header, FdtTok, FDT_PROP_HEADER_SIZE, MAX_NODE_NAME_LEN};
use vstd::prelude::*;

verus! {

/// `x` rounded up to the next multiple of four.
pub open spec fn spec_align_up(x: int) -> int {
    if x % 4 == 0 {
        x
    } else {
        x + 4 - x % 4
    }
}

/// A token of the structure block, with the places of its name or value in the blob.
pub enum Token {
    BeginNode { name_start: int, name_len: int },
    EndNode,
    Prop { value_start: int, value_len: int, name_offset: int },
    Nop,
}

/// What a token hands to the caller: the bytes of its name or value.
pub enum TokenView {
    BeginNode { name: Seq<u8> },
    EndNode,
    Prop { value: Seq<u8>, name_offset: int },
    Nop,
}

impl Token {
    /// The bytes that this token of `buf` hands out.
    pub open spec fn content(self, buf: Seq<u8>) -> TokenView {
        match self {
            Token::BeginNode { name_start, name_len } => TokenView::BeginNode {
                name: buf.subrange(name_start, name_start + name_len),
            },
            Token::EndNode => TokenView::EndNode,
            Token::Prop { value_start, value_len, name_offset } => TokenView::Prop {
                value: buf.subrange(value_start, value_start + value_len),
                name_offset,
            },
            Token::Nop => TokenView::Nop,
        }
    }
}

/// One step of the tokenizer: what it returns, and where it leaves the cursor.
pub struct TokenStep {
    /// `Ok(None)` stands for the token that ends the structure block.
    pub result: Result<Option<Token>, DevTreeError>,
    pub next_off: int,
}

/// The step of the tokenizer on `buf` with the cursor at `off`.
///
/// A token is the big-endian word at `off`. A node's name is looked for among the
/// `MAX_NODE_NAME_LEN - 1` bytes after the word; a property's header of two words follows
/// the word, then its value. After a name or a value the cursor is rounded up to a
/// multiple of four. Whatever does not fit this, or leaves the buffer, is a `ParseError`.
/// The cursor moves only past a token that is returned: at the end of the block and at an
/// error it stays, so that the next step gives the same again.
#[verifier::opaque]
pub open spec fn spec_next_token(buf: Seq<u8>, off: int) -> TokenStep {
    if off < 0 || off + 4 > buf.len() {
        TokenStep { result: Err(DevTreeError::ParseError), next_off: off }
    } else {
        let body = off + 4;
        match FdtTok::spec_from_u32(spec_be_u32(buf, off) as u32) {
            None => TokenStep { result: Err(DevTreeError::ParseError), next_off: off },
            Some(FdtTok::End) => TokenStep { result: Ok(None), next_off: off },
            Some(FdtTok::EndNode) => TokenStep {
                result: Ok(Some(Token::EndNode)),
                next_off: body,
            },
            Some(FdtTok::Nop) => TokenStep { result: Ok(Some(Token::Nop)), next_off: body },
            Some(FdtTok::BeginNode) => {
                let end = spec_scan_end(buf.len() as int, body, MAX_NODE_NAME_LEN - 1);
                let nul = spec_find_nul(buf, body, end);
                if body < end && nul < end && spec_align_up(nul + 1) <= usize::MAX {
                    TokenStep {
                        result: Ok(
                            Some(Token::BeginNode { name_start: body, name_len: nul - body }),
                        ),
                        next_off: spec_align_up(nul + 1),
                    }
                } else {
                    TokenStep { result: Err(DevTreeError::ParseError), next_off: off }
                }
            },
            Some(FdtTok::Prop) => {
                if body + FDT_PROP_HEADER_SIZE > buf.len() {
                    TokenStep { result: Err(DevTreeError::ParseError), next_off: off }
                } else {
                    let value_len = spec_be_u32(buf, body);
                    let name_offset = spec_be_u32(buf, body + 4);
                    let value_start = body + FDT_PROP_HEADER_SIZE;
                    let next = spec_align_up(value_start + value_len);
                    if value_start + value_len > buf.len() || next > usize::MAX
                        || name_offset > buf.len() {
                        TokenStep { result: Err(DevTreeError::ParseError), next_off: off }
                    } else {
                        TokenStep {
                            result: Ok(Some(Token::Prop { value_start, value_len, name_offset })),
                            next_off: next,
                        }
                    }
                }
            },
        }
    }
}

/// A token that was returned lies within the buffer, and the cursor has moved past it to
/// a multiple of four.
pub proof fn lemma_token_bounds(buf: Seq<u8>, off: int)
    ensures
        spec_next_token(buf, off).result matches Ok(Some(_)) ==> 0 <= off && off + 4
            <= spec_next_token(buf, off).next_off <= buf.len() + 3 && off + 4 <= buf.len(),
        !(spec_next_token(buf, off).result matches Ok(Some(_))) ==> spec_next_token(
            buf,
            off,
        ).next_off == off,
        spec_next_token(buf, off).result matches Ok(Some(_)) && off % 4 == 0 ==> spec_next_token(
            buf,
            off,
        ).next_off % 4 == 0,
        spec_next_token(buf, off).result matches Ok(Some(Token::BeginNode { name_start, name_len }))
            ==> name_start == off + 4 && 0 <= name_len < MAX_NODE_NAME_LEN - 1 && name_start
            + name_len < buf.len() && spec_next_token(buf, off).next_off == spec_align_up(
            name_start + name_len + 1,
        ),
        spec_next_token(buf, off).result matches Ok(
            Some(Token::Prop { value_start, value_len, name_offset }),
        ) ==> value_start == off + 12 && 0 <= value_len && value_start + value_len <= buf.len()
            && 0 <= name_offset <= buf.len() && spec_next_token(buf, off).next_off
            == spec_align_up(value_start + value_len),
        spec_next_token(buf, off).result matches Ok(Some(Token::EndNode)) ==> spec_next_token(
            buf,
            off,
        ).next_off == off + 4,
        spec_next_token(buf, off).result matches Ok(Some(Token::Nop)) ==> spec_next_token(
            buf,
            off,
        ).next_off == off + 4,
{
    reveal(spec_next_token);
    if 0 <= off && off + 4 <= buf.len() {
        let body = off + 4;
        let end = spec_scan_end(buf.len() as int, body, MAX_NODE_NAME_LEN - 1);
        if body <= end {
            lemma_find_nul(buf, body, end);
        }
    }
}

pub struct ParsedBeginNode<'a> {
    pub name: &'a [u8],
}

pub struct ParsedProp<'a> {
    pub prop_buf: &'a [u8],
    pub name_offset: usize,
}

/// Enumeration of all tokens within a device tree's structure block.
pub enum ParsedTok<'a> {
    BeginNode(ParsedBeginNode<'a>),
    EndNode,
    Prop(ParsedProp<'a>),
    Nop,
}

impl<'a> ParsedTok<'a> {
    pub open spec fn view(&self) -> TokenView {
        match self {
            ParsedTok::BeginNode(node) => TokenView::BeginNode { name: node.name@ },
            ParsedTok::EndNode => TokenView::EndNode,
            ParsedTok::Prop(prop) => TokenView::Prop {
                value: prop.prop_buf@,
                name_offset: prop.name_offset as int,
            },
            ParsedTok::Nop => TokenView::Nop,
        }
    }
}

/// Tells whether the tokenizer's result `r` on `buf` is the step `step`.
pub open spec fn token_result_is(
    r: Result<Option<ParsedTok>, DevTreeError>,
    buf: Seq<u8>,
    step: TokenStep,
) -> bool {
    match r {
        Ok(Some(tok)) => step.result matches Ok(Some(t)) && tok@ == t.content(buf),
        Ok(None) => step.result == Ok::<Option<Token>, DevTreeError>(None),
        Err(e) => step.result == Err::<Option<Token>, DevTreeError>(e),
    }
}

/// Rounds `x` up to a multiple of four, if that fits.
fn align_up(x: usize) -> (r: Option<usize>)
    ensures
        match r {
            Some(y) => y == spec_align_up(x as int),
            None => spec_align_up(x as int) > usize::MAX,
        },
{
    let rem: usize = x % 4;
    if rem == 0 {
        Some(x)
    } else if x > usize::MAX - (4 - rem) {
        None
    } else {
        Some(x + (4 - rem))
    }
}

/// This function implements the logic to tokenize the device tree's main structure block.
///
/// This function will return the next [`ParsedTok`] if one exists. If it succeeds in parsing
/// a token, `off` will be incremented to the start of the next token within `buf`. At the
/// token that ends the block, and at an error, `off` is left as it was.
///
/// If this function returns `Ok(Some(_))` for an offset that is u32 aligned, the offset is
/// u32 aligned afterwards.  This means that as long as this function is initially called
/// with an aligned offset, this function may be iteratively called without checking the
/// offset's alignment again.
pub fn next_devtree_token<'a>(buf: &'a [u8], off: &mut usize) -> (r: Result<
    Option<ParsedTok<'a>>,
    DevTreeError,
>)
    ensures
        token_result_is(r, buf@, spec_next_token(buf@, *old(off) as int)),
        *final(off) == spec_next_token(buf@, *old(off) as int).next_off,
        r matches Ok(Some(_)) && *old(off) % 4 == 0 ==> *final(off) % 4 == 0,
{
    let start: usize = *off;
    proof {
        reveal(spec_next_token);
        lemma_token_bounds(buf@, start as int);
    }
    let fdt_tok_val: u32 = match buf.unchecked_read_be_u32(start) {
        Ok(v) => v,
        Err(_) => {
            return Err(DevTreeError::ParseError);
        },
    };
    let len: usize = buf.len();
    let body: usize = start + 4;

    match FdtTok::from_u32(fdt_tok_val) {
        Some(FdtTok::BeginNode) => {
            // Read the name (or return an error if the device tree is incorrectly formatted).
            let name: &'a [u8] = match buf.nread_bstring0(body, MAX_NODE_NAME_LEN - 1) {
                Ok(name) => name,
                Err(_) => {
                    return Err(DevTreeError::ParseError);
                },
            };
            proof {
                let end = spec_scan_end(len as int, body as int, MAX_NODE_NAME_LEN - 1);
                lemma_find_nul(buf@, body as int, end);
            }
            // Move to the end of name (adding null byte), then align back to u32.
            match align_up(body + name.len() + 1) {
                Some(next) => {
                    *off = next;
                    Ok(Some(ParsedTok::BeginNode(ParsedBeginNode { name })))
                },
                None => Err(DevTreeError::ParseError),
            }
        },
        Some(FdtTok::Prop) => {
            // Read the header: the length of the value, then the offset of the name.
            if len - body < FDT_PROP_HEADER_SIZE {
                return Err(DevTreeError::ParseError);
            }
            let header = match (buf.read_be_u32(body), buf.read_be_u32(body + 4)) {
                (Ok(len), Ok(nameoff)) => fdt_prop_header { len, nameoff },
                _ => {
                    return Err(DevTreeError::ParseError);
                },
            };
            let prop_len: usize = header.len as usize;

            // Move offset past prop header
            let value_start: usize = body + FDT_PROP_HEADER_SIZE;
            if prop_len > len - value_start {
                return Err(DevTreeError::ParseError);
            }
            // Create a slice using the offset

            let prop_buf: &'a [u8] = &buf[value_start..value_start + prop_len];

            // Move the offset past the prop data and align back to u32.
            let next: usize = match align_up(value_start + prop_len) {
                Some(next) => next,
                None => {
                    return Err(DevTreeError::ParseError);
                },
            };

            let name_offset: usize = header.nameoff as usize;
            if name_offset > len {
                return Err(DevTreeError::ParseError);
            }
            *off = next;
            Ok(Some(ParsedTok::Prop(ParsedProp { name_offset, prop_buf })))
        },
        Some(FdtTok::EndNode) => {
            *off = body;
            Ok(Some(ParsedTok::EndNode))
        },
        Some(FdtTok::Nop) => {
            *off = body;
            Ok(Some(ParsedTok::Nop))
        },
        Some(FdtTok::End) => Ok(None),
        None => {
            // Invalid token
            Err(DevTreeError::ParseError)
        },
    }
}

/// An iterator over the tokens of a device tree's structure block.
pub struct DevTreeParseIter<'r, 'dt: 'r> {
    pub offset: usize,
    pub fdt: &'r DevTree<'dt>,
}

impl<'r, 'dt: 'r> DevTreeParseIter<'r, 'dt> {
    pub fn new(fdt: &'r DevTree<'dt>) -> (iter: Self)
        ensures
            iter.offset == spec_be_u32(fdt@, 8),
            iter.fdt == fdt,
    {
        Self { offset: fdt.off_dt_struct(), fdt }
    }

    /// Returns the token at the cursor and moves the cursor past it.
    pub fn next(&mut self) -> (r: Result<Option<ParsedTok<'dt>>, DevTreeError>)
        ensures
            token_result_is(r, old(self).fdt@, spec_next_token(old(self).fdt@, old(self).offset as int)),
            final(self).offset == spec_next_token(old(self).fdt@, old(self).offset as int).next_off,
            final(self).fdt == old(self).fdt,
    {
        let buf: &'dt [u8] = self.fdt.buf();
        let mut off: usize = self.offset;
        let r = next_devtree_token(buf, &mut off);
        self.offset = off;
        r
    }
}

} // verus!

use vstd::prelude::*;

use crate::block::{Block, BlockV};
use crate::codec::{
    self, enc_block, enc_i32, enc_list, enc_string, enc_tx, fdec_str, fenc_str, sdec_block,
    sdec_i32, sdec_list, sdec_string, sdec_tx, views_of_strings,
};
use crate::errors::Error;
use crate::transaction::{Transaction, TxV};

verus! {

broadcast use vstd::string::group_string_axioms;

/// The number of bytes in a wire command tag.
pub const CMD_LEN: usize = 12;

/// The protocol version advertised in handshakes.
pub const VERSION: i32 = 1;

/// Model of a wire message.
pub enum MessageV {
    Addr(Seq<Seq<char>>),
    Version { addr_from: Seq<char>, version: i32, best_height: i32 },
    Tx { addr_from: Seq<char>, transaction: TxV },
    GetData { addr_from: Seq<char>, kind: Seq<char>, id: Seq<char> },
    GetBlock { addr_from: Seq<char> },
    Inv { addr_from: Seq<char>, kind: Seq<char>, items: Seq<Seq<char>> },
    Block { addr_from: Seq<char>, block: BlockV },
}

/// A handshake message: who speaks, at which protocol version, and how
/// high their chain is.
#[derive(Debug)]
pub struct VersionMsg {
    pub addr_from: String,
    pub version: i32,
    pub best_height: i32,
}

/// A request for the full list of block hashes.
#[derive(Debug)]
pub struct GetBlockMsg {
    pub addr_from: String,
}

/// A request for one block or one transaction by id.
#[derive(Debug)]
pub struct GetDataMsg {
    pub addr_from: String,
    pub kind: String,
    pub id: String,
}

/// An inventory announcement: hashes or transaction ids a peer holds.
#[derive(Debug)]
pub struct InvMsg {
    pub addr_from: String,
    pub kind: String,
    pub items: Vec<String>,
}

/// A transaction handed to a peer.
#[derive(Debug)]
pub struct TxMsg {
    pub addr_from: String,
    pub transaction: Transaction,
}

/// A block handed to a peer.
#[derive(Debug)]
pub struct BlockMsg {
    pub addr_from: String,
    pub block: Block,
}

/// One wire message.
#[derive(Debug)]
pub enum Message {
    Addr(Vec<String>),
    Version(VersionMsg),
    Tx(TxMsg),
    GetData(GetDataMsg),
    GetBlock(GetBlockMsg),
    Inv(InvMsg),
    Block(BlockMsg),
}

impl View for Message {
    type V = MessageV;

    open spec fn view(&self) -> MessageV {
        match self {
            Message::Addr(items) => MessageV::Addr(views_of_strings(items@)),
            Message::Version(m) => MessageV::Version {
                addr_from: m.addr_from@,
                version: m.version,
                best_height: m.best_height,
            },
            Message::Tx(m) => MessageV::Tx { addr_from: m.addr_from@, transaction: m.transaction@ },
            Message::GetData(m) => MessageV::GetData {
                addr_from: m.addr_from@,
                kind: m.kind@,
                id: m.id@,
            },
            Message::GetBlock(m) => MessageV::GetBlock { addr_from: m.addr_from@ },
            Message::Inv(m) => MessageV::Inv {
                addr_from: m.addr_from@,
                kind: m.kind@,
                items: views_of_strings(m.items@),
            },
            Message::Block(m) => MessageV::Block { addr_from: m.addr_from@, block: m.block@ },
        }
    }
}

pub open spec fn tag_addr() -> Seq<u8> {
    seq![97u8, 100u8, 100u8, 114u8, 0u8, 0u8, 0u8, 0u8, 0u8, 0u8, 0u8, 0u8]
}

pub open spec fn tag_version() -> Seq<u8> {
    seq![118u8, 101u8, 114u8, 115u8, 105u8, 111u8, 110u8, 0u8, 0u8, 0u8, 0u8, 0u8]
}

pub open spec fn tag_tx() -> Seq<u8> {
    seq![116u8, 120u8, 0u8, 0u8, 0u8, 0u8, 0u8, 0u8, 0u8, 0u8, 0u8, 0u8]
}

pub open spec fn tag_getdata() -> Seq<u8> {
    seq![103u8, 101u8, 116u8, 100u8, 97u8, 116u8, 97u8, 0u8, 0u8, 0u8, 0u8, 0u8]
}

pub open spec fn tag_getblock() -> Seq<u8> {
    seq![103u8, 101u8, 116u8, 98u8, 108u8, 111u8, 99u8, 107u8, 0u8, 0u8, 0u8, 0u8]
}

pub open spec fn tag_inv() -> Seq<u8> {
    seq![105u8, 110u8, 118u8, 0u8, 0u8, 0u8, 0u8, 0u8, 0u8, 0u8, 0u8, 0u8]
}

pub open spec fn tag_block() -> Seq<u8> {
    seq![98u8, 108u8, 111u8, 99u8, 107u8, 0u8, 0u8, 0u8, 0u8, 0u8, 0u8, 0u8]
}

/// The whole frame a message occupies on the wire: a 12-byte command tag,
/// then the payload.
pub open spec fn enc_msg(m: MessageV) -> Seq<u8> {
    match m {
        MessageV::Addr(items) => tag_addr() + enc_list(items, fenc_str()),
        MessageV::Version { addr_from, version, best_height } => tag_version() + enc_string(
            addr_from,
        ) + enc_i32(version) + enc_i32(best_height),
        MessageV::Tx { addr_from, transaction } => tag_tx() + enc_string(addr_from) + enc_tx(
            transaction,
        ),
        MessageV::GetData { addr_from, kind, id } => tag_getdata() + enc_string(addr_from)
            + enc_string(kind) + enc_string(id),
        MessageV::GetBlock { addr_from } => tag_getblock() + enc_string(addr_from),
        MessageV::Inv { addr_from, kind, items } => tag_inv() + enc_string(addr_from) + enc_string(
            kind,
        ) + enc_list(items, fenc_str()),
        MessageV::Block { addr_from, block } => tag_block() + enc_string(addr_from) + enc_block(
            block,
        ),
    }
}

/// Whether a 12-byte tag names one of the seven commands.
pub open spec fn known_tag(t: Seq<u8>) -> bool {
    t == tag_addr() || t == tag_version() || t == tag_tx() || t == tag_getdata() || t
        == tag_getblock() || t == tag_inv() || t == tag_block()
}

/// Decodes a whole frame; nothing on a short frame, an unknown tag, or a
/// payload that does not fill the frame.
pub open spec fn sdec_msg(b: Seq<u8>) -> Option<MessageV> {
    if b.len() < 12 {
        None
    } else {
        let tag = b.subrange(0, 12);
        if tag == tag_addr() {
            match sdec_list(b, 12, fdec_str()) {
                Some((items, p)) => if p == b.len() {
                    Some(MessageV::Addr(items))
                } else {
                    None
                },
                None => None,
            }
        } else if tag == tag_version() {
            match sdec_string(b, 12) {
                Some((addr_from, p1)) => match sdec_i32(b, p1) {
                    Some((version, p2)) => match sdec_i32(b, p2) {
                        Some((best_height, p3)) => if p3 == b.len() {
                            Some(MessageV::Version { addr_from, version, best_height })
                        } else {
                            None
                        },
                        None => None,
                    },
                    None => None,
                },
                None => None,
            }
        } else if tag == tag_tx() {
            match sdec_string(b, 12) {
                Some((addr_from, p1)) => match sdec_tx(b, p1) {
                    Some((transaction, p2)) => if p2 == b.len() {
                        Some(MessageV::Tx { addr_from, transaction })
                    } else {
                        None
                    },
                    None => None,
                },
                None => None,
            }
        } else if tag == tag_getdata() {
            match sdec_string(b, 12) {
                Some((addr_from, p1)) => match sdec_string(b, p1) {
                    Some((kind, p2)) => match sdec_string(b, p2) {
                        Some((id, p3)) => if p3 == b.len() {
                            Some(MessageV::GetData { addr_from, kind, id })
                        } else {
                            None
                        },
                        None => None,
                    },
                    None => None,
                },
                None => None,
            }
        } else if tag == tag_getblock() {
            match sdec_string(b, 12) {
                Some((addr_from, p1)) => if p1 == b.len() {
                    Some(MessageV::GetBlock { addr_from })
                } else {
                    None
                },
                None => None,
            }
        } else if tag == tag_inv() {
            match sdec_string(b, 12) {
                Some((addr_from, p1)) => match sdec_string(b, p1) {
                    Some((kind, p2)) => match sdec_list(b, p2, fdec_str()) {
                        Some((items, p3)) => if p3 == b.len() {
                            Some(MessageV::Inv { addr_from, kind, items })
                        } else {
                            None
                        },
                        None => None,
                    },
                    None => None,
                },
                None => None,
            }
        } else if tag == tag_block() {
            match sdec_string(b, 12) {
                Some((addr_from, p1)) => match sdec_block(b, p1) {
                    Some((block, p2)) => if p2 == b.len() {
                        Some(MessageV::Block { addr_from, block })
                    } else {
                        None
                    },
                    None => None,
                },
                None => None,
            }
        } else {
            None
        }
    }
}

/// Pushes the 12 bytes of a tag.
fn push_tag(out: &mut Vec<u8>, b0: u8, b1: u8, b2: u8, b3: u8, b4: u8, b5: u8, b6: u8, b7: u8)
    ensures
        final(out)@ == old(out)@ + seq![
            b0,
            b1,
            b2,
            b3,
            b4,
            b5,
            b6,
            b7,
            0u8,
            0u8,
            0u8,
            0u8,
        ],
{
    let ghost pre = out@;
    out.push(b0);
    out.push(b1);
    out.push(b2);
    out.push(b3);
    out.push(b4);
    out.push(b5);
    out.push(b6);
    out.push(b7);
    out.push(0);
    out.push(0);
    out.push(0);
    out.push(0);
    proof {
        assert(out@ =~= pre + seq![b0, b1, b2, b3, b4, b5, b6, b7, 0u8, 0u8, 0u8, 0u8]);
    }
}

/// The bytes a message occupies on the wire.
pub fn msg_bytes(m: &Message) -> (r: Vec<u8>)
    ensures
        r@ == enc_msg(m@),
{
    let mut out: Vec<u8> = Vec::new();
    match m {
        Message::Addr(items) => {
            push_tag(&mut out, 97, 100, 100, 114, 0, 0, 0, 0);
            proof {
                assert(out@ =~= tag_addr());
            }
            codec::write_string_list(&mut out, items);
        },
        Message::Version(v) => {
            push_tag(&mut out, 118, 101, 114, 115, 105, 111, 110, 0);
            proof {
                assert(out@ =~= tag_version());
            }
            codec::write_string(&mut out, v.addr_from.as_str());
            codec::write_i32(&mut out, v.version);
            codec::write_i32(&mut out, v.best_height);
            proof {
                codec::lemma_concat4(
                    tag_version(),
                    enc_string(v.addr_from@),
                    enc_i32(v.version),
                    enc_i32(v.best_height),
                    Seq::empty(),
                );
            }
        },
        Message::Tx(t) => {
            push_tag(&mut out, 116, 120, 0, 0, 0, 0, 0, 0);
            proof {
                assert(out@ =~= tag_tx());
            }
            codec::write_string(&mut out, t.addr_from.as_str());
            codec::write_tx(&mut out, &t.transaction);
            proof {
                codec::lemma_concat4(
                    tag_tx(),
                    enc_string(t.addr_from@),
                    enc_tx(t.transaction@),
                    Seq::empty(),
                    Seq::empty(),
                );
            }
        },
        Message::GetData(g) => {
            push_tag(&mut out, 103, 101, 116, 100, 97, 116, 97, 0);
            proof {
                assert(out@ =~= tag_getdata());
            }
            codec::write_string(&mut out, g.addr_from.as_str());
            codec::write_string(&mut out, g.kind.as_str());
            codec::write_string(&mut out, g.id.as_str());
            proof {
                codec::lemma_concat4(
                    tag_getdata(),
                    enc_string(g.addr_from@),
                    enc_string(g.kind@),
                    enc_string(g.id@),
                    Seq::empty(),
                );
            }
        },
        Message::GetBlock(g) => {
            push_tag(&mut out, 103, 101, 116, 98, 108, 111, 99, 107);
            proof {
                assert(out@ =~= tag_getblock());
            }
            codec::write_string(&mut out, g.addr_from.as_str());
        },
        Message::Inv(iv) => {
            push_tag(&mut out, 105, 110, 118, 0, 0, 0, 0, 0);
            proof {
                assert(out@ =~= tag_inv());
            }
            codec::write_string(&mut out, iv.addr_from.as_str());
            codec::write_string(&mut out, iv.kind.as_str());
            codec::write_string_list(&mut out, &iv.items);
            proof {
                codec::lemma_concat4(
                    tag_inv(),
                    enc_string(iv.addr_from@),
                    enc_string(iv.kind@),
                    enc_list(views_of_strings(iv.items@), fenc_str()),
                    Seq::empty(),
                );
            }
        },
        Message::Block(bm) => {
            push_tag(&mut out, 98, 108, 111, 99, 107, 0, 0, 0);
            proof {
                assert(out@ =~= tag_block());
            }
            codec::write_string(&mut out, bm.addr_from.as_str());
            codec::write_block(&mut out, &bm.block);
            proof {
                codec::lemma_concat4(
                    tag_block(),
                    enc_string(bm.addr_from@),
                    enc_block(bm.block@),
                    Seq::empty(),
                    Seq::empty(),
                );
            }
        },
    }
    out
}

/// Whether the first 12 bytes of `b` equal the 12-byte tag.
fn prefix_is(b: &[u8], tag: &Vec<u8>) -> (r: bool)
    requires
        b@.len() >= 12,
        tag@.len() == 12,
    ensures
        r == (b@.subrange(0, 12) == tag@),
{
    let mut i: usize = 0;
    while i < 12
        invariant
            i <= 12,
            b@.len() >= 12,
            tag@.len() == 12,
            forall|j: int| 0 <= j < i ==> b@[j] == tag@[j],
        decreases 12 - i,
    {
        if b[i] != tag[i] {
            assert(b@.subrange(0, 12)[i as int] != tag@[i as int]);
            return false;
        }
        i += 1;
    }
    proof {
        assert(b@.subrange(0, 12) =~= tag@);
    }
    true
}

/// The 12 bytes of a tag, as a vector.
fn tag_vec(b0: u8, b1: u8, b2: u8, b3: u8, b4: u8, b5: u8, b6: u8, b7: u8) -> (r: Vec<u8>)
    ensures
        r@ == seq![b0, b1, b2, b3, b4, b5, b6, b7, 0u8, 0u8, 0u8, 0u8],
{
    let mut v: Vec<u8> = Vec::new();
    push_tag(&mut v, b0, b1, b2, b3, b4, b5, b6, b7);
    proof {
        assert(v@ =~= seq![b0, b1, b2, b3, b4, b5, b6, b7, 0u8, 0u8, 0u8, 0u8]);
    }
    v
}

/// Parses one frame into a message. The command tag decides the payload
/// shape; an unrecognised tag is its own error.
pub fn bytes_to_cmd(bytes: &[u8]) -> (r: Result<Message, Error>)
    ensures
        r matches Ok(m) ==> sdec_msg(bytes@) == Some(m@),
        r is Ok <==> sdec_msg(bytes@) is Some,
        r matches Err(e) ==> e == Error::SerializationError || e == Error::UnknownCommand,
        r matches Err(e) ==> (e == Error::UnknownCommand <==> (bytes@.len() >= 12 && !known_tag(
            bytes@.subrange(0, 12),
        ))),
{
    if bytes.len() < CMD_LEN {
        return Err(Error::SerializationError);
    }
    if prefix_is(bytes, &tag_vec(97, 100, 100, 114, 0, 0, 0, 0)) {
        proof {
            assert(bytes@.subrange(0, 12) == tag_addr());
        }
        match codec::read_string_list(bytes, CMD_LEN) {
            Some((items, p)) => {
                if p == bytes.len() {
                    Ok(Message::Addr(items))
                } else {
                    Err(Error::SerializationError)
                }
            },
            None => Err(Error::SerializationError),
        }
    } else if prefix_is(bytes, &tag_vec(118, 101, 114, 115, 105, 111, 110, 0)) {
        match codec::read_string(bytes, CMD_LEN) {
            Some((addr_from, p1)) => {
                match codec::read_i32(bytes, p1) {
                    Some((version, p2)) => {
                        match codec::read_i32(bytes, p2) {
                            Some((best_height, p3)) => {
                                if p3 == bytes.len() {
                                    Ok(Message::Version(VersionMsg { addr_from, version, best_height }))
                                } else {
                                    Err(Error::SerializationError)
                                }
                            },
                            None => Err(Error::SerializationError),
                        }
                    },
                    None => Err(Error::SerializationError),
                }
            },
            None => Err(Error::SerializationError),
        }
    } else if prefix_is(bytes, &tag_vec(116, 120, 0, 0, 0, 0, 0, 0)) {
        match codec::read_string(bytes, CMD_LEN) {
            Some((addr_from, p1)) => {
                match codec::read_tx(bytes, p1) {
                    Some((transaction, p2)) => {
                        if p2 == bytes.len() {
                            Ok(Message::Tx(TxMsg { addr_from, transaction }))
                        } else {
                            Err(Error::SerializationError)
                        }
                    },
                    None => Err(Error::SerializationError),
                }
            },
            None => Err(Error::SerializationError),
        }
    } else if prefix_is(bytes, &tag_vec(103, 101, 116, 100, 97, 116, 97, 0)) {
        match codec::read_string(bytes, CMD_LEN) {
            Some((addr_from, p1)) => {
                match codec::read_string(bytes, p1) {
                    Some((kind, p2)) => {
                        match codec::read_string(bytes, p2) {
                            Some((id, p3)) => {
                                if p3 == bytes.len() {
                                    Ok(Message::GetData(GetDataMsg { addr_from, kind, id }))
                                } else {
                                    Err(Error::SerializationError)
                                }
                            },
                            None => Err(Error::SerializationError),
                        }
                    },
                    None => Err(Error::SerializationError),
                }
            },
            None => Err(Error::SerializationError),
        }
    } else if prefix_is(bytes, &tag_vec(103, 101, 116, 98, 108, 111, 99, 107)) {
        match codec::read_string(bytes, CMD_LEN) {
            Some((addr_from, p1)) => {
                if p1 == bytes.len() {
                    Ok(Message::GetBlock(GetBlockMsg { addr_from }))
                } else {
                    Err(Error::SerializationError)
                }
            },
            None => Err(Error::SerializationError),
        }
    } else if prefix_is(bytes, &tag_vec(105, 110, 118, 0, 0, 0, 0, 0)) {
        match codec::read_string(bytes, CMD_LEN) {
            Some((addr_from, p1)) => {
                match codec::read_string(bytes, p1) {
                    Some((kind, p2)) => {
                        match codec::read_string_list(bytes, p2) {
                            Some((items, p3)) => {
                                if p3 == bytes.len() {
                                    Ok(Message::Inv(InvMsg { addr_from, kind, items }))
                                } else {
                                    Err(Error::SerializationError)
                                }
                            },
                            None => Err(Error::SerializationError),
                        }
                    },
                    None => Err(Error::SerializationError),
                }
            },
            None => Err(Error::SerializationError),
        }
    } else if prefix_is(bytes, &tag_vec(98, 108, 111, 99, 107, 0, 0, 0)) {
        match codec::read_string(bytes, CMD_LEN) {
            Some((addr_from, p1)) => {
                match codec::read_block(bytes, p1) {
                    Some((block, p2)) => {
                        if p2 == bytes.len() {
                            Ok(Message::Block(BlockMsg { addr_from, block }))
                        } else {
                            Err(Error::SerializationError)
                        }
                    },
                    None => Err(Error::SerializationError),
                }
            },
            None => Err(Error::SerializationError),
        }
    } else {
        Err(Error::UnknownCommand)
    }
}

} // verus!

verus! {

/// The known tags differ pairwise.
proof fn lemma_tags_distinct()
    ensures
        tag_addr() != tag_version(),
        tag_addr() != tag_tx(),
        tag_addr() != tag_getdata(),
        tag_addr() != tag_getblock(),
        tag_addr() != tag_inv(),
        tag_addr() != tag_block(),
        tag_version() != tag_tx(),
        tag_version() != tag_getdata(),
        tag_version() != tag_getblock(),
        tag_version() != tag_inv(),
        tag_version() != tag_block(),
        tag_tx() != tag_getdata(),
        tag_tx() != tag_getblock(),
        tag_tx() != tag_inv(),
        tag_tx() != tag_block(),
        tag_getdata() != tag_getblock(),
        tag_getdata() != tag_inv(),
        tag_getdata() != tag_block(),
        tag_getblock() != tag_inv(),
        tag_getblock() != tag_block(),
        tag_inv() != tag_block(),
{
    assert(tag_addr()[0] == 97 && tag_version()[0] == 118 && tag_tx()[0] == 116 && tag_getdata()[0]
        == 103 && tag_getblock()[0] == 103 && tag_inv()[0] == 105 && tag_block()[0] == 98);
    assert(tag_getdata()[3] == 100 && tag_getblock()[3] == 98);
}

/// Size bounds under which a message's frame decodes back to it.
pub open spec fn msg_wf(m: MessageV) -> bool {
    let big = 0x1_0000_0000_0000_0000int;
    &&& enc_msg(m).len() < big
    &&& match m {
        MessageV::Addr(items) => items.len() < big && forall|i: int|
            0 <= i < items.len() ==> vstd::utf8::encode_utf8(#[trigger] items[i]).len() < big,
        MessageV::Version { addr_from, .. } => vstd::utf8::encode_utf8(addr_from).len() < big,
        MessageV::Tx { addr_from, transaction } => vstd::utf8::encode_utf8(addr_from).len() < big
            && transaction.vin.len() < big && transaction.vout.len() < big,
        MessageV::GetData { addr_from, kind, id } => vstd::utf8::encode_utf8(addr_from).len() < big
            && vstd::utf8::encode_utf8(kind).len() < big && vstd::utf8::encode_utf8(id).len()
            < big,
        MessageV::GetBlock { addr_from } => vstd::utf8::encode_utf8(addr_from).len() < big,
        MessageV::Inv { addr_from, kind, items } => vstd::utf8::encode_utf8(addr_from).len() < big
            && vstd::utf8::encode_utf8(kind).len() < big && items.len() < big && forall|i: int|
            0 <= i < items.len() ==> vstd::utf8::encode_utf8(#[trigger] items[i]).len() < big,
        MessageV::Block { addr_from, block } => vstd::utf8::encode_utf8(addr_from).len() < big
            && block.transactions.len() < big && forall|i: int|
            0 <= i < block.transactions.len() ==> (#[trigger] block.transactions[i]).vin.len()
                < big && block.transactions[i].vout.len() < big,
    }
}

/// Round trip for an address list frame.
#[verifier::rlimit(100)]
proof fn lemma_rt_msg_addr(items: Seq<Seq<char>>)
    requires
        msg_wf(MessageV::Addr(items)),
    ensures
        sdec_msg(enc_msg(MessageV::Addr(items))) == Some(MessageV::Addr(items)),
{
    lemma_tags_distinct();
    let b = enc_msg(MessageV::Addr(items));
    let e1 = enc_list(items, fenc_str());
    assert(b.subrange(0, (tag_addr().len() + e1.len()) as int) =~= tag_addr() + e1);
    codec::lemma_split(b, 0, tag_addr(), e1);
    assert forall|p2: int, i: int|
        #![trigger fdec_str()(b, p2), fenc_str()(items[i])]
        0 <= i < items.len() && 0 <= p2 && p2 + fenc_str()(items[i]).len() <= b.len()
            && b.subrange(p2, p2 + fenc_str()(items[i]).len()) == fenc_str()(
            items[i],
        ) implies fdec_str()(b, p2) == Some((items[i], p2 + fenc_str()(items[i]).len())) by {
        codec::lemma_rt_string(b, p2, items[i]);
    }
    codec::lemma_rt_list(b, 12, items, fenc_str(), fdec_str());
}

/// Round trip for a handshake frame.
#[verifier::rlimit(100)]
proof fn lemma_rt_msg_version(addr_from: Seq<char>, version: i32, best_height: i32)
    requires
        msg_wf(MessageV::Version { addr_from, version, best_height }),
    ensures
        sdec_msg(enc_msg(MessageV::Version { addr_from, version, best_height })) == Some(
            MessageV::Version { addr_from, version, best_height },
        ),
{
    lemma_tags_distinct();
    let b = enc_msg(MessageV::Version { addr_from, version, best_height });
    let e1 = enc_string(addr_from);
    let e2 = enc_i32(version);
    let e3 = enc_i32(best_height);
    codec::lemma_le_bytes_len(codec::i32_bits(version), 4);
    codec::lemma_le_bytes_len(codec::i32_bits(best_height), 4);
    assert(b =~= tag_version() + (e1 + (e2 + e3)));
    assert(b.subrange(0, (tag_version().len() + (e1 + (e2 + e3)).len()) as int) =~= tag_version()
        + (e1 + (e2 + e3)));
    codec::lemma_split(b, 0, tag_version(), e1 + (e2 + e3));
    codec::lemma_split(b, 12, e1, e2 + e3);
    codec::lemma_split(b, 12 + e1.len() as int, e2, e3);
    codec::lemma_rt_string(b, 12, addr_from);
    codec::lemma_rt_i32(b, 12 + e1.len() as int, version);
    codec::lemma_rt_i32(b, 12 + e1.len() as int + 4, best_height);
}

/// Round trip for a transaction frame.
#[verifier::rlimit(100)]
proof fn lemma_rt_msg_tx(addr_from: Seq<char>, transaction: TxV)
    requires
        msg_wf(MessageV::Tx { addr_from, transaction }),
    ensures
        sdec_msg(enc_msg(MessageV::Tx { addr_from, transaction })) == Some(
            MessageV::Tx { addr_from, transaction },
        ),
{
    lemma_tags_distinct();
    let b = enc_msg(MessageV::Tx { addr_from, transaction });
    let e1 = enc_string(addr_from);
    let e2 = enc_tx(transaction);
    assert(b =~= tag_tx() + (e1 + e2));
    assert(b.subrange(0, (tag_tx().len() + (e1 + e2).len()) as int) =~= tag_tx() + (e1 + e2));
    codec::lemma_split(b, 0, tag_tx(), e1 + e2);
    codec::lemma_split(b, 12, e1, e2);
    codec::lemma_rt_string(b, 12, addr_from);
    codec::lemma_rt_tx(b, 12 + e1.len() as int, transaction);
}

/// Round trip for a data request frame.
#[verifier::rlimit(100)]
proof fn lemma_rt_msg_getdata(addr_from: Seq<char>, kind: Seq<char>, id: Seq<char>)
    requires
        msg_wf(MessageV::GetData { addr_from, kind, id }),
    ensures
        sdec_msg(enc_msg(MessageV::GetData { addr_from, kind, id })) == Some(
            MessageV::GetData { addr_from, kind, id },
        ),
{
    lemma_tags_distinct();
    let b = enc_msg(MessageV::GetData { addr_from, kind, id });
    let e1 = enc_string(addr_from);
    let e2 = enc_string(kind);
    let e3 = enc_string(id);
    assert(b =~= tag_getdata() + (e1 + (e2 + e3)));
    assert(b.subrange(0, (tag_getdata().len() + (e1 + (e2 + e3)).len()) as int) =~= tag_getdata()
        + (e1 + (e2 + e3)));
    codec::lemma_split(b, 0, tag_getdata(), e1 + (e2 + e3));
    codec::lemma_split(b, 12, e1, e2 + e3);
    codec::lemma_split(b, 12 + e1.len() as int, e2, e3);
    codec::lemma_rt_string(b, 12, addr_from);
    codec::lemma_rt_string(b, 12 + e1.len() as int, kind);
    codec::lemma_rt_string(b, 12 + e1.len() as int + e2.len() as int, id);
}

/// Round trip for a block request frame.
#[verifier::rlimit(100)]
proof fn lemma_rt_msg_getblock(addr_from: Seq<char>)
    requires
        msg_wf(MessageV::GetBlock { addr_from }),
    ensures
        sdec_msg(enc_msg(MessageV::GetBlock { addr_from })) == Some(
            MessageV::GetBlock { addr_from },
        ),
{
    lemma_tags_distinct();
    let b = enc_msg(MessageV::GetBlock { addr_from });
    let e1 = enc_string(addr_from);
    assert(b.subrange(0, (tag_getblock().len() + e1.len()) as int) =~= tag_getblock() + e1);
    codec::lemma_split(b, 0, tag_getblock(), e1);
    codec::lemma_rt_string(b, 12, addr_from);
}

/// Round trip for an inventory frame.
#[verifier::rlimit(100)]
proof fn lemma_rt_msg_inv(addr_from: Seq<char>, kind: Seq<char>, items: Seq<Seq<char>>)
    requires
        msg_wf(MessageV::Inv { addr_from, kind, items }),
    ensures
        sdec_msg(enc_msg(MessageV::Inv { addr_from, kind, items })) == Some(
            MessageV::Inv { addr_from, kind, items },
        ),
{
    lemma_tags_distinct();
    let b = enc_msg(MessageV::Inv { addr_from, kind, items });
    let e1 = enc_string(addr_from);
    let e2 = enc_string(kind);
    let e3 = enc_list(items, fenc_str());
    assert(b =~= tag_inv() + (e1 + (e2 + e3)));
    assert(b.subrange(0, (tag_inv().len() + (e1 + (e2 + e3)).len()) as int) =~= tag_inv() + (e1 + (
    e2 + e3)));
    codec::lemma_split(b, 0, tag_inv(), e1 + (e2 + e3));
    codec::lemma_split(b, 12, e1, e2 + e3);
    codec::lemma_split(b, 12 + e1.len() as int, e2, e3);
    codec::lemma_rt_string(b, 12, addr_from);
    codec::lemma_rt_string(b, 12 + e1.len() as int, kind);
    assert forall|p2: int, i: int|
        #![trigger fdec_str()(b, p2), fenc_str()(items[i])]
        0 <= i < items.len() && 0 <= p2 && p2 + fenc_str()(items[i]).len() <= b.len()
            && b.subrange(p2, p2 + fenc_str()(items[i]).len()) == fenc_str()(
            items[i],
        ) implies fdec_str()(b, p2) == Some((items[i], p2 + fenc_str()(items[i]).len())) by {
        codec::lemma_rt_string(b, p2, items[i]);
    }
    codec::lemma_rt_list(b, 12 + e1.len() as int + e2.len() as int, items, fenc_str(), fdec_str());
}

/// Round trip for a block frame.
#[verifier::rlimit(100)]
proof fn lemma_rt_msg_block(addr_from: Seq<char>, block: BlockV)
    requires
        msg_wf(MessageV::Block { addr_from, block }),
    ensures
        sdec_msg(enc_msg(MessageV::Block { addr_from, block })) == Some(
            MessageV::Block { addr_from, block },
        ),
{
    lemma_tags_distinct();
    let b = enc_msg(MessageV::Block { addr_from, block });
    let e1 = enc_string(addr_from);
    let e2 = enc_block(block);
    assert(b =~= tag_block() + (e1 + e2));
    assert(b.subrange(0, (tag_block().len() + (e1 + e2).len()) as int) =~= tag_block() + (e1 + e2));
    codec::lemma_split(b, 0, tag_block(), e1 + e2);
    codec::lemma_split(b, 12, e1, e2);
    codec::lemma_rt_string(b, 12, addr_from);
    codec::lemma_rt_block(b, 12 + e1.len() as int, block);
}

/// Round trip: a well-sized message's frame decodes back to the message.
pub proof fn lemma_rt_msg(m: MessageV)
    requires
        msg_wf(m),
    ensures
        sdec_msg(enc_msg(m)) == Some(m),
{
    match m {
        MessageV::Addr(items) => lemma_rt_msg_addr(items),
        MessageV::Version { addr_from, version, best_height } => lemma_rt_msg_version(
            addr_from,
            version,
            best_height,
        ),
        MessageV::Tx { addr_from, transaction } => lemma_rt_msg_tx(addr_from, transaction),
        MessageV::GetData { addr_from, kind, id } => lemma_rt_msg_getdata(addr_from, kind, id),
        MessageV::GetBlock { addr_from } => lemma_rt_msg_getblock(addr_from),
        MessageV::Inv { addr_from, kind, items } => lemma_rt_msg_inv(addr_from, kind, items),
        MessageV::Block { addr_from, block } => lemma_rt_msg_block(addr_from, block),
    }
}

} // verus!

use crate::blockchain::{spec_best_height, stored_block};
use crate::store::db_view;
use crate::utxoset::Utxoset;
use vstd::utf8::encode_utf8;

verus! {

/// The hardcoded bootstrap peer: the transaction relay of the network.
pub const KNOWN_NODE_1: &'static str = "localhost:3000";

/// One outgoing send the caller must perform: connect to `addr`, write the
/// frame of `msg`, close.
pub struct Action {
    pub addr: String,
    pub msg: Message,
}

/// Views of an action list.
pub open spec fn action_views(s: Seq<Action>) -> Seq<(Seq<char>, MessageV)> {
    s.map_values(|a: Action| (a.addr@, a.msg@))
}

/// A node: its own address, the miner address (empty for a non-mining
/// node), the peers it knows, the blocks it has been promised, the pool of
/// unmined transactions, and the chain with its index.
pub struct Node {
    pub node_address: String,
    pub mining_address: String,
    pub known_nodes: Vec<String>,
    pub blocks_in_transit: Vec<String>,
    pub mempool: Vec<Transaction>,
    pub utxo: Utxoset,
}

/// Whether a list of strings holds one with the given view.
pub open spec fn has_str(s: Seq<String>, a: Seq<char>) -> bool {
    exists|i: int| 0 <= i < s.len() && (#[trigger] s[i])@ == a
}

/// Whether a pool holds a transaction with the given id.
pub open spec fn has_tx(pool: Seq<Transaction>, id: Seq<char>) -> bool {
    exists|i: int| 0 <= i < pool.len() && (#[trigger] pool[i])@.id == id
}

/// The announced items not already pending, in announcement order.
pub open spec fn fresh_items(items: Seq<Seq<char>>, pending: Seq<Seq<char>>) -> Seq<Seq<char>>
    decreases items.len(),
{
    if items.len() == 0 {
        Seq::empty()
    } else {
        (if pending.contains(items[0]) {
            Seq::empty()
        } else {
            seq![items[0]]
        }) + fresh_items(items.drop_first(), pending)
    }
}

proof fn lemma_fresh_items_push(items: Seq<Seq<char>>, x: Seq<char>, pending: Seq<Seq<char>>)
    ensures
        fresh_items(items.push(x), pending) == fresh_items(items, pending) + (if pending.contains(
            x,
        ) {
            Seq::<Seq<char>>::empty()
        } else {
            seq![x]
        }),
    decreases items.len(),
{
    let tail = if pending.contains(x) {
        Seq::<Seq<char>>::empty()
    } else {
        seq![x]
    };
    if items.len() == 0 {
        assert(items.push(x).drop_first() =~= Seq::<Seq<char>>::empty());
        assert(items.push(x)[0] == x);
        assert(fresh_items(items.push(x).drop_first(), pending) == Seq::<Seq<char>>::empty());
        if pending.contains(x) {
            assert(fresh_items(items.push(x), pending) == Seq::<Seq<char>>::empty() + Seq::<
                Seq<char>,
            >::empty());
        } else {
            assert(fresh_items(items.push(x), pending) == seq![x] + Seq::<Seq<char>>::empty());
        }
        assert(tail + Seq::<Seq<char>>::empty() =~= tail);
        assert(fresh_items(items, pending) + tail =~= tail);
    } else {
        assert(items.push(x).drop_first() =~= items.drop_first().push(x));
        assert(items.push(x)[0] == items[0]);
        lemma_fresh_items_push(items.drop_first(), x, pending);
        let head = if pending.contains(items[0]) {
            Seq::<Seq<char>>::empty()
        } else {
            seq![items[0]]
        };
        assert(fresh_items(items.push(x), pending) == head + (fresh_items(
            items.drop_first(),
            pending,
        ) + tail));
        assert(head + (fresh_items(items.drop_first(), pending) + tail) =~= (head + fresh_items(
            items.drop_first(),
            pending,
        )) + tail);
    }
}

/// Whether a transaction would be accepted into a block mined on the
/// chain a store shows: a coinbase, or linkable and signature-verified
/// against that chain.
pub open spec fn tx_acceptable(
    t: crate::transaction::TxV,
    m: Map<Seq<u8>, Seq<u8>>,
    tip: Seq<char>,
) -> bool {
    crate::transaction::spec_is_coinbase(t) || (crate::transaction::inputs_linkable(
        t,
        crate::blockchain::chain_txs(crate::blockchain::chain_of(m, tip)),
    ) && crate::transaction::tx_verifies(
        t,
        crate::blockchain::chain_txs(crate::blockchain::chain_of(m, tip)),
    ))
}

/// The relay fan-out for one transaction id: one tx inventory per known
/// peer other than the node itself and the sender, in list order.
pub open spec fn relay_actions(
    known: Seq<String>,
    self_addr: Seq<char>,
    sender: Seq<char>,
    id: Seq<char>,
) -> Seq<(Seq<char>, MessageV)>
    decreases known.len(),
{
    if known.len() == 0 {
        Seq::empty()
    } else {
        (if known[0]@ == self_addr || known[0]@ == sender {
            Seq::empty()
        } else {
            seq![
                (
                    known[0]@,
                    MessageV::Inv { addr_from: self_addr, kind: "tx"@, items: seq![id] },
                ),
            ]
        }) + relay_actions(known.drop_first(), self_addr, sender, id)
    }
}

proof fn lemma_relay_actions_push(
    known: Seq<String>,
    x: String,
    self_addr: Seq<char>,
    sender: Seq<char>,
    id: Seq<char>,
)
    ensures
        relay_actions(known.push(x), self_addr, sender, id) == relay_actions(
            known,
            self_addr,
            sender,
            id,
        ) + (if x@ == self_addr || x@ == sender {
            Seq::<(Seq<char>, MessageV)>::empty()
        } else {
            seq![(x@, MessageV::Inv { addr_from: self_addr, kind: "tx"@, items: seq![id] })]
        }),
    decreases known.len(),
{
    let tail = if x@ == self_addr || x@ == sender {
        Seq::<(Seq<char>, MessageV)>::empty()
    } else {
        seq![(x@, MessageV::Inv { addr_from: self_addr, kind: "tx"@, items: seq![id] })]
    };
    if known.len() == 0 {
        assert(known.push(x).drop_first() =~= Seq::<String>::empty());
        assert(known.push(x)[0] == x);
        assert(relay_actions(known.push(x).drop_first(), self_addr, sender, id) == Seq::<(
            Seq<char>,
            MessageV,
        )>::empty());
        assert(tail + Seq::<(Seq<char>, MessageV)>::empty() =~= tail);
        assert(relay_actions(known, self_addr, sender, id) + tail =~= tail);
    } else {
        assert(known.push(x).drop_first() =~= known.drop_first().push(x));
        assert(known.push(x)[0] == known[0]);
        lemma_relay_actions_push(known.drop_first(), x, self_addr, sender, id);
        let head = if known[0]@ == self_addr || known[0]@ == sender {
            Seq::<(Seq<char>, MessageV)>::empty()
        } else {
            seq![
                (
                    known[0]@,
                    MessageV::Inv { addr_from: self_addr, kind: "tx"@, items: seq![id] },
                ),
            ]
        };
        assert(relay_actions(known.push(x), self_addr, sender, id) == head + (relay_actions(
            known.drop_first(),
            self_addr,
            sender,
            id,
        ) + tail));
        assert(head + (relay_actions(known.drop_first(), self_addr, sender, id) + tail) =~= (head
            + relay_actions(known.drop_first(), self_addr, sender, id)) + tail);
    }
}

/// The mining fan-out for one block hash: one block inventory per known
/// peer other than the node itself, in list order.
pub open spec fn announce_actions(
    known: Seq<String>,
    self_addr: Seq<char>,
    hash: Seq<char>,
) -> Seq<(Seq<char>, MessageV)>
    decreases known.len(),
{
    if known.len() == 0 {
        Seq::empty()
    } else {
        (if known[0]@ == self_addr {
            Seq::empty()
        } else {
            seq![
                (
                    known[0]@,
                    MessageV::Inv { addr_from: self_addr, kind: "block"@, items: seq![hash] },
                ),
            ]
        }) + announce_actions(known.drop_first(), self_addr, hash)
    }
}

proof fn lemma_announce_actions_push(
    known: Seq<String>,
    x: String,
    self_addr: Seq<char>,
    hash: Seq<char>,
)
    ensures
        announce_actions(known.push(x), self_addr, hash) == announce_actions(
            known,
            self_addr,
            hash,
        ) + (if x@ == self_addr {
            Seq::<(Seq<char>, MessageV)>::empty()
        } else {
            seq![(x@, MessageV::Inv { addr_from: self_addr, kind: "block"@, items: seq![hash] })]
        }),
    decreases known.len(),
{
    let tail = if x@ == self_addr {
        Seq::<(Seq<char>, MessageV)>::empty()
    } else {
        seq![(x@, MessageV::Inv { addr_from: self_addr, kind: "block"@, items: seq![hash] })]
    };
    if known.len() == 0 {
        assert(known.push(x).drop_first() =~= Seq::<String>::empty());
        assert(known.push(x)[0] == x);
        assert(announce_actions(known.push(x).drop_first(), self_addr, hash) == Seq::<(
            Seq<char>,
            MessageV,
        )>::empty());
        assert(tail + Seq::<(Seq<char>, MessageV)>::empty() =~= tail);
        assert(announce_actions(known, self_addr, hash) + tail =~= tail);
    } else {
        assert(known.push(x).drop_first() =~= known.drop_first().push(x));
        assert(known.push(x)[0] == known[0]);
        lemma_announce_actions_push(known.drop_first(), x, self_addr, hash);
        let head = if known[0]@ == self_addr {
            Seq::<(Seq<char>, MessageV)>::empty()
        } else {
            seq![
                (
                    known[0]@,
                    MessageV::Inv { addr_from: self_addr, kind: "block"@, items: seq![hash] },
                ),
            ]
        };
        assert(announce_actions(known.push(x), self_addr, hash) == head + (announce_actions(
            known.drop_first(),
            self_addr,
            hash,
        ) + tail));
        assert(head + (announce_actions(known.drop_first(), self_addr, hash) + tail) =~= (head
            + announce_actions(known.drop_first(), self_addr, hash)) + tail);
    }
}

/// A fresh copy of a list of strings.
fn clone_strings(v: &Vec<String>) -> (r: Vec<String>)
    ensures
        views_of_strings(r@) == views_of_strings(v@),
{
    let mut r: Vec<String> = Vec::new();
    let mut i: usize = 0;
    while i < v.len()
        invariant
            i <= v@.len(),
            r@.len() == i,
            forall|j: int| 0 <= j < i ==> (#[trigger] r@[j])@ == v@[j]@,
        decreases v@.len() - i,
    {
        r.push(v[i].clone());
        i += 1;
    }
    proof {
        assert(views_of_strings(r@) =~= views_of_strings(v@));
    }
    r
}

/// Whether a list of strings holds one with the given view.
fn list_contains(v: &Vec<String>, x: &String) -> (r: bool)
    ensures
        r == views_of_strings(v@).contains(x@),
{
    let mut i: usize = 0;
    while i < v.len()
        invariant
            i <= v@.len(),
            forall|j: int| 0 <= j < i ==> (#[trigger] v@[j])@ != x@,
        decreases v@.len() - i,
    {
        if v[i] == *x {
            proof {
                assert(views_of_strings(v@)[i as int] == x@);
            }
            return true;
        }
        i += 1;
    }
    proof {
        if views_of_strings(v@).contains(x@) {
            let j = choose|j: int|
                0 <= j < views_of_strings(v@).len() && views_of_strings(v@)[j] == x@;
            assert(v@[j]@ == x@);
        }
    }
    false
}

impl Node {
    /// A node that knows only the bootstrap peer.
    pub fn new(port: &str, minter_address: &str, utxo: Utxoset) -> (r: Node)
        ensures
            r.mining_address@ == minter_address@,
            r.utxo == utxo,
            r.known_nodes@.len() == 1 && r.known_nodes@[0]@ == KNOWN_NODE_1@,
            r.blocks_in_transit@.len() == 0,
            r.mempool@.len() == 0,
            r.node_address@ == "localhost:"@ + port@,
    {
        let mut known_nodes: Vec<String> = Vec::new();
        known_nodes.push(<String as vstd::string::StringExecFns>::from_str(KNOWN_NODE_1));
        let node_address = <String as vstd::string::StringExecFns>::concat(
            <String as vstd::string::StringExecFns>::from_str("localhost:"),
            port,
        );
        Node {
            node_address,
            mining_address: <String as vstd::string::StringExecFns>::from_str(minter_address),
            known_nodes,
            blocks_in_transit: Vec::new(),
            mempool: Vec::new(),
            utxo,
        }
    }

    /// Whether a peer is already known.
    pub fn node_is_known(&self, addr: &String) -> (r: bool)
        ensures
            r == has_str(self.known_nodes@, addr@),
    {
        let mut i: usize = 0;
        while i < self.known_nodes.len()
            invariant
                i <= self.known_nodes@.len(),
                forall|j: int| 0 <= j < i ==> (#[trigger] self.known_nodes@[j])@ != addr@,
            decreases self.known_nodes@.len() - i,
        {
            if self.known_nodes[i] == *addr {
                return true;
            }
            i += 1;
        }
        false
    }

    /// Records a peer, once.
    pub fn add_nodes(&mut self, addr: &String)
        ensures
            final(self).node_address == old(self).node_address,
            final(self).mining_address == old(self).mining_address,
            final(self).blocks_in_transit == old(self).blocks_in_transit,
            final(self).mempool == old(self).mempool,
            final(self).utxo == old(self).utxo,
            forall|a: Seq<char>|
                #[trigger] has_str(final(self).known_nodes@, a) <==> (has_str(
                    old(self).known_nodes@,
                    a,
                ) || a == addr@),
    {
        if !self.node_is_known(addr) {
            let ghost pre = self.known_nodes@;
            self.known_nodes.push(addr.clone());
            proof {
                assert forall|a: Seq<char>| #[trigger]
                    has_str(self.known_nodes@, a) implies (has_str(pre, a) || a == addr@) by {
                    let i = choose|i: int|
                        0 <= i < self.known_nodes@.len() && (#[trigger] self.known_nodes@[i])@
                            == a;
                    if i < pre.len() {
                        assert(pre[i]@ == a);
                    }
                }
                assert forall|a: Seq<char>|
                    has_str(pre, a) || a == addr@ implies #[trigger] has_str(
                    self.known_nodes@,
                    a,
                ) by {
                    if has_str(pre, a) {
                        let i = choose|i: int| 0 <= i < pre.len() && (#[trigger] pre[i])@ == a;
                        assert(self.known_nodes@[i]@ == a);
                    } else {
                        assert(self.known_nodes@[pre.len() as int]@ == a);
                    }
                }
            }
        } else {
            proof {
                assert(has_str(self.known_nodes@, addr@));
            }
        }
    }

    /// Removes a peer that could not be reached.
    pub fn remove_node(&mut self, addr: &String)
        ensures
            final(self).node_address == old(self).node_address,
            final(self).mempool == old(self).mempool,
            final(self).utxo == old(self).utxo,
            forall|a: Seq<char>|
                #[trigger] has_str(final(self).known_nodes@, a) ==> has_str(
                    old(self).known_nodes@,
                    a,
                ),
    {
        let mut kept: Vec<String> = Vec::new();
        let mut i: usize = 0;
        while i < self.known_nodes.len()
            invariant
                i <= self.known_nodes@.len(),
                forall|j: int|
                    0 <= j < kept@.len() ==> has_str(
                        self.known_nodes@,
                        (#[trigger] kept@[j])@,
                    ),
            decreases self.known_nodes@.len() - i,
        {
            if !(self.known_nodes[i] == *addr) {
                let ghost pre = kept@;
                kept.push(self.known_nodes[i].clone());
                proof {
                    assert forall|j: int|
                        0 <= j < kept@.len() implies has_str(
                        self.known_nodes@,
                        (#[trigger] kept@[j])@,
                    ) by {
                        if j < pre.len() {
                            assert(kept@[j] == pre[j]);
                        } else {
                            assert(kept@[j]@ == self.known_nodes@[i as int]@);
                        }
                    }
                }
            }
            i += 1;
        }
        let ghost oldk = self.known_nodes@;
        self.known_nodes = kept;
        proof {
            assert forall|a: Seq<char>| #[trigger]
                has_str(self.known_nodes@, a) implies has_str(oldk, a) by {
                let i = choose|i: int|
                    0 <= i < self.known_nodes@.len() && (#[trigger] self.known_nodes@[i])@ == a;
            }
        }
    }

    /// Stores a transaction in the pool, replacing any entry with its id.
    #[verifier::loop_isolation(false)]
    pub fn insert_mempool(&mut self, tx: Transaction)
        ensures
            final(self).node_address == old(self).node_address,
            final(self).mining_address == old(self).mining_address,
            final(self).known_nodes == old(self).known_nodes,
            final(self).utxo == old(self).utxo,
            final(self).blocks_in_transit == old(self).blocks_in_transit,
            has_tx(final(self).mempool@, tx@.id),
            old(self).mempool@.len() == 0 ==> final(self).mempool@.len() == 1,
            exists|i: int|
                0 <= i < final(self).mempool@.len() && (#[trigger] final(self).mempool@[i])@
                    == tx@,
    {
        let ghost tv = tx@;
        let mut i: usize = 0;
        while i < self.mempool.len()
            invariant
                i <= self.mempool@.len(),
                self == old(self),
            decreases self.mempool@.len() - i,
        {
            if self.mempool[i].id == tx.id {
                self.mempool.set(i, tx);
                proof {
                    assert(self.mempool@[i as int]@.id == tv.id);
                    assert((#[trigger] self.mempool@[i as int])@ == tv);
                }
                return ;
            }
            i += 1;
        }
        let ghost n = self.mempool@.len();
        self.mempool.push(tx);
        proof {
            assert(self.mempool@[n as int]@.id == tv.id);
            assert((#[trigger] self.mempool@[n as int])@ == tv);
        }
    }

    /// The pooled transaction with the given id, if any.
    pub fn get_mempool_tx(&self, id: &String) -> (r: Option<&Transaction>)
        ensures
            r matches Some(t) ==> t@.id == id@ && has_tx(self.mempool@, id@),
            r is None ==> !has_tx(self.mempool@, id@),
    {
        let mut i: usize = 0;
        while i < self.mempool.len()
            invariant
                i <= self.mempool@.len(),
                forall|j: int| 0 <= j < i ==> (#[trigger] self.mempool@[j])@.id != id@,
            decreases self.mempool@.len() - i,
        {
            if self.mempool[i].id == *id {
                proof {
                    assert((#[trigger] self.mempool@[i as int])@.id == id@);
                }
                return Some(&self.mempool[i]);
            }
            i += 1;
        }
        proof {
            if has_tx(self.mempool@, id@) {
                let j = choose|j: int|
                    0 <= j < self.mempool@.len() && (#[trigger] self.mempool@[j])@.id == id@;
            }
        }
        None
    }
}

} // verus!

verus! {

impl Node {
    /// Whether this node is the bootstrap relay.
    fn is_bootstrap(&self) -> (r: bool)
        ensures
            r == (self.node_address@ == KNOWN_NODE_1@),
    {
        self.node_address == <String as vstd::string::StringExecFns>::from_str(KNOWN_NODE_1)
    }

    /// Records every announced peer.
    pub fn handle_addr(&mut self, msg: &Vec<String>)
        ensures
            final(self).node_address == old(self).node_address,
            final(self).mempool == old(self).mempool,
            final(self).utxo == old(self).utxo,
            forall|j: int|
                0 <= j < msg@.len() ==> has_str(final(self).known_nodes@, (#[trigger] msg@[j])@),
    {
        let mut i: usize = 0;
        while i < msg.len()
            invariant
                i <= msg@.len(),
                self.node_address == old(self).node_address,
                self.mempool == old(self).mempool,
                self.utxo == old(self).utxo,
                forall|j: int|
                    0 <= j < i ==> has_str(self.known_nodes@, (#[trigger] msg@[j])@),
            decreases msg@.len() - i,
        {
            self.add_nodes(&msg[i]);
            i += 1;
        }
    }

    /// Compares chain heights with the peer: asks for their blocks when
    /// they are ahead, offers a handshake back when they are behind, and
    /// always sends the list of known peers. The peer is recorded.
    pub fn handle_version(&mut self, msg: &VersionMsg) -> (r: Result<Vec<Action>, Error>)
        ensures
            final(self).node_address == old(self).node_address,
            final(self).mempool == old(self).mempool,
            final(self).utxo == old(self).utxo,
            r is Ok ==> forall|a: Seq<char>|
                #[trigger] has_str(final(self).known_nodes@, a) <==> (has_str(
                    old(self).known_nodes@,
                    a,
                ) || a == msg.addr_from@),
            r matches Ok(acts) ==> (spec_best_height(db_view(old(self).utxo.blockchain.db))
                matches Ok(h) && (action_views(acts@) =~= (if h < msg.best_height {
                    seq![
                        (
                            msg.addr_from@,
                            MessageV::GetBlock { addr_from: old(self).node_address@ },
                        ),
                    ]
                } else if h > msg.best_height {
                    seq![
                        (
                            msg.addr_from@,
                            MessageV::Version {
                                addr_from: old(self).node_address@,
                                version: VERSION as i32,
                                best_height: h as i32,
                            },
                        ),
                    ]
                } else {
                    Seq::empty()
                }) + seq![
                    (
                        msg.addr_from@,
                        MessageV::Addr(views_of_strings(old(self).known_nodes@)),
                    ),
                ])),
    {
        let my_best_height = match self.utxo.blockchain.get_best_height() {
            Ok(h) => h,
            Err(e) => {
                return Err(e);
            },
        };
        let mut acts: Vec<Action> = Vec::new();
        if my_best_height < msg.best_height {
            acts.push(
                Action {
                    addr: msg.addr_from.clone(),
                    msg: Message::GetBlock(GetBlockMsg { addr_from: self.node_address.clone() }),
                },
            );
        } else if my_best_height > msg.best_height {
            acts.push(
                Action {
                    addr: msg.addr_from.clone(),
                    msg: Message::Version(
                        VersionMsg {
                            addr_from: self.node_address.clone(),
                            version: VERSION,
                            best_height: my_best_height,
                        },
                    ),
                },
            );
        }
        let mut nodes: Vec<String> = Vec::new();
        let mut i: usize = 0;
        while i < self.known_nodes.len()
            invariant
                i <= self.known_nodes@.len(),
                nodes@.len() == i,
                forall|j: int| 0 <= j < i ==> (#[trigger] nodes@[j])@ == self.known_nodes@[j]@,
            decreases self.known_nodes@.len() - i,
        {
            nodes.push(self.known_nodes[i].clone());
            i += 1;
        }
        proof {
            assert(views_of_strings(nodes@) =~= views_of_strings(self.known_nodes@));
        }
        acts.push(Action { addr: msg.addr_from.clone(), msg: Message::Addr(nodes) });
        if !self.node_is_known(&msg.addr_from) {
            self.add_nodes(&msg.addr_from);
        }
        proof {
            assert(action_views(acts@) =~= action_views(acts@));
        }
        Ok(acts)
    }

    /// Answers a block request with the full list of block hashes.
    pub fn handle_get_block(&self, msg: &GetBlockMsg) -> (r: Result<Vec<Action>, Error>)
        ensures
            r matches Ok(acts) ==> action_views(acts@) =~= seq![
                (
                    msg.addr_from@,
                    MessageV::Inv {
                        addr_from: self.node_address@,
                        kind: "block"@,
                        items: crate::blockchain::chain_of(
                            db_view(self.utxo.blockchain.db),
                            self.utxo.blockchain.current_hash@,
                        ).map_values(|b: BlockV| b.hash),
                    },
                ),
            ],
    {
        let hashes = match self.utxo.blockchain.get_block_hashes() {
            Ok(hs) => hs,
            Err(e) => {
                return Err(e);
            },
        };
        let mut acts: Vec<Action> = Vec::new();
        acts.push(
            Action {
                addr: msg.addr_from.clone(),
                msg: Message::Inv(
                    InvMsg {
                        addr_from: self.node_address.clone(),
                        kind: <String as vstd::string::StringExecFns>::from_str("block"),
                        items: hashes,
                    },
                ),
            },
        );
        Ok(acts)
    }

    /// Serves one requested block or pooled transaction.
    pub fn handle_get_data(&self, msg: &GetDataMsg) -> (r: Result<Vec<Action>, Error>)
        ensures
            msg.kind@ == "block"@ ==> (r matches Ok(acts) ==> acts@.len() == 1 && (action_views(
                acts@,
            )[0].1 matches MessageV::Block { addr_from, block } && addr_from
                == self.node_address@ && stored_block(
                db_view(self.utxo.blockchain.db),
                encode_utf8(msg.id@),
            ) == Some(block)) && action_views(acts@)[0].0 == msg.addr_from@),
            msg.kind@ == "tx"@ ==> (r matches Ok(acts) ==> acts@.len() == 1 && (action_views(
                acts@,
            )[0].1 matches MessageV::Tx { addr_from, transaction } && addr_from
                == self.node_address@ && transaction.id == msg.id@ && has_tx(
                self.mempool@,
                msg.id@,
            )) && action_views(acts@)[0].0 == msg.addr_from@),
            msg.kind@ == "tx"@ ==> (r is Ok <==> has_tx(self.mempool@, msg.id@)),
            msg.kind@ == "tx"@ ==> (r matches Err(e) ==> e == Error::NotFound),
            msg.kind@ == "block"@ ==> (r matches Err(e) ==> e == Error::IoError || (e
                == Error::NotFound && !db_view(self.utxo.blockchain.db).contains_key(
                encode_utf8(msg.id@),
            )) || (e == Error::SerializationError && stored_block(
                db_view(self.utxo.blockchain.db),
                encode_utf8(msg.id@),
            ) is None)),
            msg.kind@ != "block"@ && msg.kind@ != "tx"@ ==> (r matches Ok(acts) && acts@.len()
                == 0),
    {
        proof {
            reveal_strlit("block");
            reveal_strlit("tx");
            assert("block"@.len() == 5);
            assert("tx"@.len() == 2);
            assert("block"@ != "tx"@);
        }
        let mut acts: Vec<Action> = Vec::new();
        if msg.kind == <String as vstd::string::StringExecFns>::from_str("block") {
            let block = match self.utxo.blockchain.get_block(msg.id.as_str()) {
                Ok(b) => b,
                Err(e) => {
                    return Err(e);
                },
            };
            acts.push(
                Action {
                    addr: msg.addr_from.clone(),
                    msg: Message::Block(
                        BlockMsg { addr_from: self.node_address.clone(), block },
                    ),
                },
            );
            proof {
                reveal_strlit("block");
                reveal_strlit("tx");
            }
        } else if msg.kind == <String as vstd::string::StringExecFns>::from_str("tx") {
            let tx = match self.get_mempool_tx(&msg.id) {
                Some(t) => t.clone(),
                None => {
                    return Err(Error::NotFound);
                },
            };
            acts.push(
                Action {
                    addr: msg.addr_from.clone(),
                    msg: Message::Tx(
                        TxMsg { addr_from: self.node_address.clone(), transaction: tx },
                    ),
                },
            );
            proof {
                reveal_strlit("block");
                reveal_strlit("tx");
            }
        }
        Ok(acts)
    }

    /// Reacts to an inventory: asks for the first announced block and
    /// remembers the rest as in transit, or asks for an unseen
    /// transaction.
    #[verifier::loop_isolation(false)]
    pub fn handle_inv(&mut self, msg: &InvMsg) -> (r: Result<Vec<Action>, Error>)
        ensures
            final(self).node_address == old(self).node_address,
            final(self).mempool == old(self).mempool,
            final(self).utxo == old(self).utxo,
            final(self).known_nodes == old(self).known_nodes,
            msg.kind@ == "block"@ && msg.items@.len() > 0 ==> (r matches Ok(acts) && acts@.len()
                == 1 && action_views(acts@)[0] == (
                msg.addr_from@,
                MessageV::GetData {
                    addr_from: old(self).node_address@,
                    kind: "block"@,
                    id: msg.items@[0]@,
                },
            ) && views_of_strings(final(self).blocks_in_transit@) == views_of_strings(
                old(self).blocks_in_transit@,
            ) + fresh_items(
                views_of_strings(msg.items@),
                views_of_strings(old(self).blocks_in_transit@),
            )),
            msg.kind@ == "tx"@ && msg.items@.len() > 0 ==> (r matches Ok(acts)
                && final(self).blocks_in_transit == old(self).blocks_in_transit && (action_views(
                acts@,
            ) =~= (if (
            !has_tx(old(self).mempool@, msg.items@[0]@) || msg.items@[0]@.len() == 0) {
                seq![
                    (
                        msg.addr_from@,
                        MessageV::GetData {
                            addr_from: old(self).node_address@,
                            kind: "tx"@,
                            id: msg.items@[0]@,
                        },
                    ),
                ]
            } else {
                Seq::empty()
            }))),
            msg.kind@ != "block"@ && msg.kind@ != "tx"@ ==> (r matches Ok(acts) && acts@.len() == 0
                && final(self).blocks_in_transit == old(self).blocks_in_transit),
            r matches Err(e) ==> e == Error::SerializationError && msg.items@.len() == 0
                && final(self).blocks_in_transit == old(self).blocks_in_transit,
    {
        proof {
            reveal_strlit("block");
            reveal_strlit("tx");
            assert("block"@.len() == 5);
            assert("tx"@.len() == 2);
            assert("block"@ != "tx"@);
        }
        let mut acts: Vec<Action> = Vec::new();
        if msg.kind == <String as vstd::string::StringExecFns>::from_str("block") {
            if msg.items.len() == 0 {
                return Err(Error::SerializationError);
            }
            acts.push(
                Action {
                    addr: msg.addr_from.clone(),
                    msg: Message::GetData(
                        GetDataMsg {
                            addr_from: self.node_address.clone(),
                            kind: <String as vstd::string::StringExecFns>::from_str("block"),
                            id: msg.items[0].clone(),
                        },
                    ),
                },
            );
            // Append the announced hashes not already pending, checked
            // against the list as it stood when the announcement arrived.
            let pending = clone_strings(&self.blocks_in_transit);
            let ghost pv = views_of_strings(pending@);
            let mut i: usize = 0;
            while i < msg.items.len()
                invariant
                    i <= msg.items@.len(),
                    self.node_address == old(self).node_address,
                    self.mempool == old(self).mempool,
                    self.utxo == old(self).utxo,
                    self.known_nodes == old(self).known_nodes,
                    pv == views_of_strings(old(self).blocks_in_transit@),
                    pv == views_of_strings(pending@),
                    views_of_strings(self.blocks_in_transit@) == views_of_strings(
                        old(self).blocks_in_transit@,
                    ) + fresh_items(views_of_strings(msg.items@).take(i as int), pv),
                decreases msg.items@.len() - i,
            {
                let ghost pre = views_of_strings(self.blocks_in_transit@);
                proof {
                    lemma_fresh_items_push(
                        views_of_strings(msg.items@).take(i as int),
                        msg.items@[i as int]@,
                        pv,
                    );
                    assert(views_of_strings(msg.items@).take(i + 1) =~= views_of_strings(
                        msg.items@,
                    ).take(i as int).push(msg.items@[i as int]@));
                }
                if !list_contains(&pending, &msg.items[i]) {
                    self.blocks_in_transit.push(msg.items[i].clone());
                    proof {
                        assert(views_of_strings(self.blocks_in_transit@) =~= pre.push(
                            msg.items@[i as int]@,
                        ));
                        assert(fresh_items(views_of_strings(msg.items@).take(i + 1), pv)
                            == fresh_items(views_of_strings(msg.items@).take(i as int), pv)
                            + seq![msg.items@[i as int]@]);
                        assert(pre.push(msg.items@[i as int]@) =~= views_of_strings(
                            old(self).blocks_in_transit@,
                        ) + (fresh_items(views_of_strings(msg.items@).take(i as int), pv) + seq![
                            msg.items@[i as int]@,
                        ]));
                    }
                } else {
                    proof {
                        assert(fresh_items(views_of_strings(msg.items@).take(i + 1), pv)
                            == fresh_items(views_of_strings(msg.items@).take(i as int), pv)
                            + Seq::<Seq<char>>::empty());
                        assert(fresh_items(views_of_strings(msg.items@).take(i as int), pv) + Seq::<
                            Seq<char>,
                        >::empty() =~= fresh_items(
                            views_of_strings(msg.items@).take(i as int),
                            pv,
                        ));
                    }
                }
                i += 1;
            }
            proof {
                assert(views_of_strings(msg.items@).take(msg.items@.len() as int)
                    =~= views_of_strings(msg.items@));
            }
        } else if msg.kind == <String as vstd::string::StringExecFns>::from_str("tx") {
            if msg.items.len() == 0 {
                return Err(Error::SerializationError);
            }
            let need = match self.get_mempool_tx(&msg.items[0]) {
                Some(t) => t.id.as_str().is_empty(),
                None => true,
            };
            if need {
                acts.push(
                    Action {
                        addr: msg.addr_from.clone(),
                        msg: Message::GetData(
                            GetDataMsg {
                                addr_from: self.node_address.clone(),
                                kind: <String as vstd::string::StringExecFns>::from_str("tx"),
                                id: msg.items[0].clone(),
                            },
                        ),
                    },
                );
            }
        }
        Ok(acts)
    }

    /// Whether a block hash is already expected from a peer.
    fn in_transit_contains(&self, h: &String) -> (r: bool)
        ensures
            r == has_str(self.blocks_in_transit@, h@),
    {
        let mut i: usize = 0;
        while i < self.blocks_in_transit.len()
            invariant
                i <= self.blocks_in_transit@.len(),
                forall|j: int|
                    0 <= j < i ==> (#[trigger] self.blocks_in_transit@[j])@ != h@,
            decreases self.blocks_in_transit@.len() - i,
        {
            if self.blocks_in_transit[i] == *h {
                return true;
            }
            i += 1;
        }
        false
    }

    /// Stores an incoming block; then either fetches the next block in
    /// transit or, once none remain, rebuilds the whole index.
    pub fn handle_block(&mut self, msg: &BlockMsg) -> (r: Result<Vec<Action>, Error>)
        ensures
            final(self).node_address == old(self).node_address,
            final(self).mempool == old(self).mempool,
            r is Ok ==> crate::blockchain::add_block_post(
                db_view(old(self).utxo.blockchain.db),
                old(self).utxo.blockchain.current_hash@,
                db_view(final(self).utxo.blockchain.db),
                final(self).utxo.blockchain.current_hash@,
                msg.block@,
            ),
            r matches Ok(acts) ==> (old(self).blocks_in_transit@.len() > 0 ==> acts@.len() == 1
                && action_views(acts@)[0] == (
                msg.addr_from@,
                MessageV::GetData {
                    addr_from: old(self).node_address@,
                    kind: "block"@,
                    id: old(self).blocks_in_transit@[0]@,
                },
            ) && views_of_strings(final(self).blocks_in_transit@) =~= views_of_strings(
                old(self).blocks_in_transit@,
            ).drop_first()),
            r matches Ok(acts) ==> (old(self).blocks_in_transit@.len() == 0 ==> acts@.len() == 0
                && crate::utxoset::reindex_post(
                crate::blockchain::utxo_of_chain(
                    crate::blockchain::chain_of(
                        db_view(final(self).utxo.blockchain.db),
                        final(self).utxo.blockchain.current_hash@,
                    ),
                ),
                db_view(final(self).utxo.db),
            )),
    {
        match self.utxo.blockchain.add_block(msg.block.clone()) {
            Ok(()) => (),
            Err(e) => {
                return Err(e);
            },
        }
        let mut acts: Vec<Action> = Vec::new();
        if self.blocks_in_transit.len() > 0 {
            let head = self.blocks_in_transit[0].clone();
            acts.push(
                Action {
                    addr: msg.addr_from.clone(),
                    msg: Message::GetData(
                        GetDataMsg {
                            addr_from: self.node_address.clone(),
                            kind: <String as vstd::string::StringExecFns>::from_str("block"),
                            id: head,
                        },
                    ),
                },
            );
            proof {
                reveal_strlit("block");
            }
            let mut rest: Vec<String> = Vec::new();
            let mut i: usize = 1;
            while i < self.blocks_in_transit.len()
                invariant
                    1 <= i <= self.blocks_in_transit@.len(),
                    self.blocks_in_transit == old(self).blocks_in_transit,
                    rest@.len() == i - 1,
                    forall|j: int|
                        0 <= j < rest@.len() ==> (#[trigger] rest@[j])@
                            == self.blocks_in_transit@[j + 1]@,
                decreases self.blocks_in_transit@.len() - i,
            {
                rest.push(self.blocks_in_transit[i].clone());
                i += 1;
            }
            let ghost rv = rest@;
            self.blocks_in_transit = rest;
            proof {
                assert(views_of_strings(self.blocks_in_transit@) =~= views_of_strings(
                    old(self).blocks_in_transit@,
                ).drop_first());
            }
        } else {
            match self.utxo.reindex() {
                Ok(()) => (),
                Err(e) => {
                    return Err(e);
                },
            }
        }
        Ok(acts)
    }

    /// Pools an incoming transaction. The bootstrap relay forwards its id
    /// to every other peer; a miner drains the pool into freshly mined
    /// blocks and announces each one.
    #[verifier::loop_isolation(false)]
    #[verifier::rlimit(100)]
    pub fn handle_tx(&mut self, msg: &TxMsg) -> (r: Result<Vec<Action>, Error>)
        ensures
            final(self).node_address == old(self).node_address,
            final(self).mining_address == old(self).mining_address,
            r is Ok ==> (has_tx(final(self).mempool@, msg.transaction@.id) || final(self).mempool@.len() == 0),
            old(self).node_address@ == KNOWN_NODE_1@ ==> (r matches Ok(acts) && action_views(acts@)
                == relay_actions(
                old(self).known_nodes@,
                old(self).node_address@,
                msg.addr_from@,
                msg.transaction@.id,
            ) && final(self).utxo == old(self).utxo && has_tx(
                final(self).mempool@,
                msg.transaction@.id,
            )),
            r matches Ok(acts) ==> (old(self).node_address@ != KNOWN_NODE_1@ ==> forall|k: int|
                    0 <= k < acts@.len() ==> ((#[trigger] action_views(acts@)[k]).1 matches
                        MessageV::Inv { addr_from, kind, items } && addr_from == old(self).node_address@
                        && kind == "block"@ && action_views(acts@)[k].0 != old(self).node_address@)),
            r is Ok && old(self).node_address@ != KNOWN_NODE_1@ && old(self).mining_address@.len()
                > 0 && tx_acceptable(
                msg.transaction@,
                db_view(old(self).utxo.blockchain.db),
                old(self).utxo.blockchain.current_hash@,
            ) ==> (spec_best_height(db_view(old(self).utxo.blockchain.db)) matches Ok(h0)
                && spec_best_height(db_view(final(self).utxo.blockchain.db)) matches Ok(h1) && h1
                > h0 && crate::utxoset::reindex_post(
                crate::blockchain::utxo_of_chain(
                    crate::blockchain::chain_of(
                        db_view(final(self).utxo.blockchain.db),
                        final(self).utxo.blockchain.current_hash@,
                    ),
                ),
                db_view(final(self).utxo.db),
            ) && (old(self).mempool@.len() == 0 ==> final(self).mempool@.len() == 0)),
            r is Ok && old(self).node_address@ != KNOWN_NODE_1@ && old(self).mining_address@.len()
                > 0 && tx_acceptable(
                msg.transaction@,
                db_view(old(self).utxo.blockchain.db),
                old(self).utxo.blockchain.current_hash@,
            ) && old(self).mempool@.len() == 0 ==> (crate::blockchain::stored_block(
                db_view(final(self).utxo.blockchain.db),
                db_view(final(self).utxo.blockchain.db)[crate::blockchain::last_key()],
            ) matches Some(b) && b.transactions.len() == 2 && b.transactions[0]
                == msg.transaction@ && crate::transaction::spec_is_coinbase(b.transactions[1])
                && b.transactions[1].vout.len() == 1 && b.transactions[1].vout[0].value
                == crate::SUBSIDY && crate::tx::address_payload_of(old(self).mining_address@)
                == Some(b.transactions[1].vout[0].pub_key_hash) && (r matches Ok(acts)
                && action_views(acts@) == announce_actions(
                old(self).known_nodes@,
                old(self).node_address@,
                b.hash,
            ))),
    {
        let ghost chain0 = crate::blockchain::chain_txs(
            crate::blockchain::chain_of(
                db_view(old(self).utxo.blockchain.db),
                old(self).utxo.blockchain.current_hash@,
            ),
        );
        let ghost p_cond = tx_acceptable(
            msg.transaction@,
            db_view(old(self).utxo.blockchain.db),
            old(self).utxo.blockchain.current_hash@,
        );
        self.insert_mempool(msg.transaction.clone());
        let mut acts: Vec<Action> = Vec::new();
        if self.is_bootstrap() {
            let mut i: usize = 0;
            proof {
                assert(old(self).known_nodes@.take(0) =~= Seq::<String>::empty());
            }
            while i < self.known_nodes.len()
                invariant
                    i <= self.known_nodes@.len(),
                    self.node_address == old(self).node_address,
                    self.known_nodes == old(self).known_nodes,
                    action_views(acts@) == relay_actions(
                        old(self).known_nodes@.take(i as int),
                        old(self).node_address@,
                        msg.addr_from@,
                        msg.transaction@.id,
                    ),
                decreases self.known_nodes@.len() - i,
            {
                proof {
                    reveal_strlit("tx");
                    lemma_relay_actions_push(
                        old(self).known_nodes@.take(i as int),
                        old(self).known_nodes@[i as int],
                        old(self).node_address@,
                        msg.addr_from@,
                        msg.transaction@.id,
                    );
                    assert(old(self).known_nodes@.take(i + 1) =~= old(self).known_nodes@.take(
                        i as int,
                    ).push(old(self).known_nodes@[i as int]));
                }
                let node = &self.known_nodes[i];
                let ghost pre = action_views(acts@);
                if !(*node == self.node_address) && !(*node == msg.addr_from) {
                    let mut items: Vec<String> = Vec::new();
                    items.push(msg.transaction.id.clone());
                    proof {
                        assert(views_of_strings(items@) =~= seq![msg.transaction@.id]);
                    }
                    acts.push(
                        Action {
                            addr: node.clone(),
                            msg: Message::Inv(
                                InvMsg {
                                    addr_from: self.node_address.clone(),
                                    kind: <String as vstd::string::StringExecFns>::from_str("tx"),
                                    items,
                                },
                            ),
                        },
                    );
                    proof {
                        assert(action_views(acts@) =~= pre.push(
                            (
                                old(self).known_nodes@[i as int]@,
                                MessageV::Inv {
                                    addr_from: old(self).node_address@,
                                    kind: "tx"@,
                                    items: seq![msg.transaction@.id],
                                },
                            ),
                        ));
                        assert(action_views(acts@) =~= relay_actions(
                            old(self).known_nodes@.take(i + 1),
                            old(self).node_address@,
                            msg.addr_from@,
                            msg.transaction@.id,
                        ));
                    }
                } else {
                    proof {
                        assert(relay_actions(
                            old(self).known_nodes@.take(i + 1),
                            old(self).node_address@,
                            msg.addr_from@,
                            msg.transaction@.id,
                        ) =~= pre);
                    }
                }
                i += 1;
            }
            proof {
                assert(old(self).known_nodes@.take(old(self).known_nodes@.len() as int)
                    =~= old(self).known_nodes@);
            }
            return Ok(acts);
        }
        if self.mempool.len() >= 1 && !self.mining_address.as_str().is_empty() {
            let mut pool: Vec<Transaction> = Vec::new();
            let mut pi: usize = 0;
            while pi < self.mempool.len()
                invariant
                    pi <= self.mempool@.len(),
                    pool@.len() == pi,
                    forall|j: int| 0 <= j < pi ==> (#[trigger] pool@[j])@ == self.mempool@[j]@,
                decreases self.mempool@.len() - pi,
            {
                pool.push(self.mempool[pi].clone());
                pi += 1;
            }
            proof {
                if exists|i: int|
                    0 <= i < self.mempool@.len() && (#[trigger] self.mempool@[i])@
                        == msg.transaction@ {
                    let i = choose|i: int|
                        0 <= i < self.mempool@.len() && (#[trigger] self.mempool@[i])@
                            == msg.transaction@;
                    assert((#[trigger] pool@[i])@ == msg.transaction@);
                }
            }
            let ghost h_cond = old(self).mempool@.len() == 0 && p_cond;
            let ghost mut mined: bool = false;
            loop
                invariant
                    self.node_address == old(self).node_address,
                    self.mining_address == old(self).mining_address,
                    has_tx(self.mempool@, msg.transaction@.id),
                    old(self).node_address@ != KNOWN_NODE_1@,
                    pool@.len() > 0,
                    self.known_nodes == old(self).known_nodes,
                    h_cond ==> !mined && pool@.len() == 1 && pool@[0]@ == msg.transaction@
                        && acts@.len() == 0,
                    !mined ==> self.utxo == old(self).utxo,
                    !mined ==> exists|j: int|
                        0 <= j < pool@.len() && (#[trigger] pool@[j])@ == msg.transaction@,
                    mined ==> (spec_best_height(db_view(old(self).utxo.blockchain.db)) matches Ok(
                        h0,
                    ) && spec_best_height(db_view(self.utxo.blockchain.db)) matches Ok(h1) && h1
                        > h0),
                    mined ==> crate::utxoset::reindex_post(
                        crate::blockchain::utxo_of_chain(
                            crate::blockchain::chain_of(
                                db_view(self.utxo.blockchain.db),
                                self.utxo.blockchain.current_hash@,
                            ),
                        ),
                        db_view(self.utxo.db),
                    ),
                    forall|k: int|
                        0 <= k < acts@.len() ==> ((#[trigger] action_views(acts@)[k]).1 matches
                            MessageV::Inv { addr_from, kind, items } && addr_from
                            == old(self).node_address@ && kind == "block"@ && action_views(
                            acts@,
                        )[k].0 != old(self).node_address@),
                decreases pool@.len(),
            {
                // Collect the pooled transactions that verify.
                let mut txs: Vec<Transaction> = Vec::new();
                let mut vi: usize = 0;
                while vi < pool.len()
                    invariant
                        vi <= pool@.len(),
                        txs@.len() <= vi,
                        forall|c: int|
                            0 <= c < txs@.len() ==> exists|j: int|
                                0 <= j < pool@.len() && (#[trigger] txs@[c])@ == pool@[j]@,
                        (!mined && p_cond && exists|j: int|
                            0 <= j < vi && (#[trigger] pool@[j])@ == msg.transaction@)
                            ==> txs@.len() > 0,
                    decreases pool@.len() - vi,
                {
                    let ok = match self.utxo.blockchain.verify_transaction(&pool[vi]) {
                        Ok(b) => b,
                        Err(e) => {
                            return Err(e);
                        },
                    };
                    let ghost pre_len = txs@.len();
                    if ok {
                        txs.push(pool[vi].clone());
                        proof {
                            assert((#[trigger] txs@[pre_len as int])@ == pool@[vi as int]@);
                        }
                    }
                    proof {
                        if !mined && p_cond && pool@[vi as int]@ == msg.transaction@ {
                            assert(ok);
                            assert(txs@.len() > 0);
                        }
                    }
                    vi += 1;
                }
                if txs.len() == 0 {
                    proof {
                        if p_cond && !mined {
                            assert(false);
                        }
                    }
                    return Ok(acts);
                }
                let cb = match crate::transaction::Transaction::new_coinbase(
                    self.mining_address.clone(),
                    String::new(),
                ) {
                    Ok(t) => t,
                    Err(e) => {
                        return Err(e);
                    },
                };
                let ghost first_view = txs@[0]@;
                txs.push(cb);
                proof {
                    assert(txs@[0]@ == first_view);
                }
                // Remove the chosen transactions from the local pool; the
                // first chosen one came from the pool, so the pool shrinks.
                let mut rest: Vec<Transaction> = Vec::new();
                let mut ri: usize = 0;
                while ri < pool.len()
                    invariant
                        ri <= pool@.len(),
                        rest@.len() <= ri,
                        (exists|j: int|
                            0 <= j < ri && (exists|c: int|
                                0 <= c < txs@.len() && (#[trigger] txs@[c])@.id == (
                                #[trigger] pool@[j])@.id)) ==> rest@.len() < ri,
                    decreases pool@.len() - ri,
                {
                    let mut chosen = false;
                    let mut ci: usize = 0;
                    while ci < txs.len()
                        invariant
                            ci <= txs@.len(),
                            chosen <==> exists|c: int|
                                0 <= c < ci && (#[trigger] txs@[c])@.id == pool@[ri as int]@.id,
                        decreases txs@.len() - ci,
                    {
                        if txs[ci].id == pool[ri].id {
                            proof {
                                assert((#[trigger] txs@[ci as int])@.id == pool@[ri as int]@.id);
                            }
                            chosen = true;
                        }
                        ci += 1;
                    }
                    if !chosen {
                        rest.push(pool[ri].clone());
                    }
                    ri += 1;
                }
                proof {
                    let j0 = choose|j: int|
                        0 <= j < pool@.len() && (#[trigger] txs@[0])@ == pool@[j]@;
                    assert((#[trigger] txs@[0])@.id == (#[trigger] pool@[j0])@.id);
                    assert(rest@.len() < pool@.len());
                }
                pool = rest;
                let new_block = match self.utxo.blockchain.mine_block(txs) {
                    Ok(b) => b,
                    Err(e) => {
                        return Err(e);
                    },
                };
                match self.utxo.reindex() {
                    Ok(()) => (),
                    Err(e) => {
                        return Err(e);
                    },
                }
                proof {
                    mined = true;
                }
                let ghost acts_at_announce = acts@;
                let mut ni: usize = 0;
                while ni < self.known_nodes.len()
                    invariant
                        ni <= self.known_nodes@.len(),
                        self.node_address == old(self).node_address,
                        self.known_nodes == old(self).known_nodes,
                        old(self).node_address@ != KNOWN_NODE_1@,
                        h_cond ==> acts_at_announce.len() == 0 && action_views(acts@)
                            == announce_actions(
                            old(self).known_nodes@.take(ni as int),
                            old(self).node_address@,
                            new_block@.hash,
                        ),
                        forall|k: int|
                            0 <= k < acts@.len() ==> ((#[trigger] action_views(acts@)[k]).1 matches
                                MessageV::Inv { addr_from, kind, items } && addr_from
                                == old(self).node_address@ && kind == "block"@ && action_views(
                                acts@,
                            )[k].0 != old(self).node_address@),
                    decreases self.known_nodes@.len() - ni,
                {
                    proof {
                        if h_cond {
                            reveal_strlit("block");
                            lemma_announce_actions_push(
                                old(self).known_nodes@.take(ni as int),
                                old(self).known_nodes@[ni as int],
                                old(self).node_address@,
                                new_block@.hash,
                            );
                            assert(old(self).known_nodes@.take(ni + 1) =~= old(
                                self,
                            ).known_nodes@.take(ni as int).push(old(self).known_nodes@[ni as int]));
                        }
                    }
                    let ghost pre_views = action_views(acts@);
                    let node = &self.known_nodes[ni];
                    if !(*node == self.node_address) {
                        let mut items: Vec<String> = Vec::new();
                        items.push(new_block.get_hash());
                        proof {
                            assert(views_of_strings(items@) =~= seq![new_block@.hash]);
                        }
                        let ghost pre = acts@;
                        acts.push(
                            Action {
                                addr: node.clone(),
                                msg: Message::Inv(
                                    InvMsg {
                                        addr_from: self.node_address.clone(),
                                        kind: <String as vstd::string::StringExecFns>::from_str(
                                            "block",
                                        ),
                                        items,
                                    },
                                ),
                            },
                        );
                        proof {
                            reveal_strlit("block");
                            if h_cond {
                                assert(action_views(acts@) =~= pre_views.push(
                                    (
                                        old(self).known_nodes@[ni as int]@,
                                        MessageV::Inv {
                                            addr_from: old(self).node_address@,
                                            kind: "block"@,
                                            items: seq![new_block@.hash],
                                        },
                                    ),
                                ));
                            }
                            assert forall|k: int|
                                0 <= k < acts@.len() implies ((#[trigger] action_views(
                                acts@,
                            )[k]).1 matches MessageV::Inv { addr_from, kind, items } && addr_from
                                == old(self).node_address@ && kind == "block"@ && action_views(
                                acts@,
                            )[k].0 != old(self).node_address@) by {
                                if k < pre.len() {
                                    assert(acts@[k] == pre[k]);
                                    assert(action_views(acts@)[k] == action_views(pre)[k]);
                                }
                            }
                        }
                    } else {
                        proof {
                            if h_cond {
                                assert(announce_actions(
                                    old(self).known_nodes@.take(ni + 1),
                                    old(self).node_address@,
                                    new_block@.hash,
                                ) =~= pre_views);
                            }
                        }
                    }
                    ni += 1;
                }
                proof {
                    if h_cond {
                        assert(old(self).known_nodes@.take(old(self).known_nodes@.len() as int)
                            =~= old(self).known_nodes@);
                    }
                }
                if pool.len() == 0 {
                    break ;
                }
                proof {
                    if h_cond {
                        assert(false);
                    }
                }
            }
            self.mempool = Vec::new();
        }
        Ok(acts)
    }
}

} // verus!

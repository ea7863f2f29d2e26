//! The physical address space: addresses, regions, the memory endpoints that
//! occupy them and the controller that routes each access to an endpoint.

use vstd::prelude::*;

use crate::cfg::Word;
use crate::text::{hex4, hex4_string};

verus! {

/// An offset in the physical address space.
#[derive(Clone, Copy, Debug, PartialEq, Eq, Structural)]
pub struct Offset(pub Word);

impl Offset {
    pub fn new(val: Word) -> (r: Offset)
        ensures
            r.0 == val,
    {
        Offset(val)
    }

    pub fn into_raw(self) -> (r: Word)
        ensures
            r == self.0,
    {
        self.0
    }

    /// The offset's text: `0x` and four hexadecimal digits.
    pub fn to_string(&self) -> (s: String)
        ensures
            s@ == hex4(self.0),
    {
        hex4_string(self.0)
    }
}

impl From<Word> for Offset {
    fn from(value: Word) -> (r: Offset) {
        Offset(value)
    }
}

impl vstd::std_specs::convert::FromSpecImpl<Word> for Offset {
    open spec fn obeys_from_spec() -> bool {
        true
    }

    open spec fn from_spec(v: Word) -> Offset {
        Offset(v)
    }
}

/// A physical address.
#[derive(Clone, Copy, Debug, PartialEq, Eq, Structural)]
pub struct PhysAddr(pub Word);

impl From<Word> for PhysAddr {
    fn from(value: Word) -> (r: PhysAddr) {
        PhysAddr(value)
    }
}

impl vstd::std_specs::convert::FromSpecImpl<Word> for PhysAddr {
    open spec fn obeys_from_spec() -> bool {
        true
    }

    open spec fn from_spec(v: Word) -> PhysAddr {
        PhysAddr(v)
    }
}

impl From<PhysAddr> for Word {
    fn from(value: PhysAddr) -> (r: Word) {
        value.0
    }
}

impl vstd::std_specs::convert::FromSpecImpl<PhysAddr> for Word {
    open spec fn obeys_from_spec() -> bool {
        true
    }

    open spec fn from_spec(v: PhysAddr) -> Word {
        v.0
    }
}

/// A word converted to an address and back is the same word, and an
/// address converted to a word and back is the same address.
pub proof fn lemma_address_word_round_trip(w: Word, a: PhysAddr)
    ensures
        <Word as vstd::std_specs::convert::FromSpec<PhysAddr>>::from_spec(
            <PhysAddr as vstd::std_specs::convert::FromSpec<Word>>::from_spec(w),
        ) == w,
        <PhysAddr as vstd::std_specs::convert::FromSpec<Word>>::from_spec(
            <Word as vstd::std_specs::convert::FromSpec<PhysAddr>>::from_spec(a),
        ) == a,
{
}

/// The sum of two words as 16-bit wrapping addition gives it.
pub open spec fn wrap_add(a: u16, b: u16) -> u16 {
    ((a as int + b as int) % 0x10000) as u16
}

/// The difference of two words as 16-bit wrapping subtraction gives it.
pub open spec fn wrap_sub(a: u16, b: u16) -> u16 {
    ((a as int - b as int + 0x10000) % 0x10000) as u16
}

impl PhysAddr {
    pub fn new(val: Word) -> (r: PhysAddr)
        ensures
            r.0 == val,
    {
        PhysAddr(val)
    }

    pub fn into_raw(self) -> (r: Word)
        ensures
            r == self.0,
    {
        self.0
    }

    /// Whether the address is a multiple of the word size (two bytes).
    pub fn is_word_aligned(&self) -> (b: bool)
        ensures
            b == (self.0 % 2 == 0),
    {
        self.0 % 2 == 0
    }

    /// Moves the address forward by `rhs`; the sum must fit in a word.
    pub fn add_assign(&mut self, rhs: Offset)
        requires
            old(self).0 + rhs.0 <= u16::MAX,
        ensures
            final(self).0 == old(self).0 + rhs.0,
    {
        self.0 = self.0 + rhs.0;
    }

    /// The address `rhs` further on, wrapping around the address space.
    pub fn plus(self, rhs: Offset) -> (r: PhysAddr)
        ensures
            r.0 == wrap_add(self.0, rhs.0),
    {
        PhysAddr(self.0.wrapping_add(rhs.0))
    }

    /// The address `rhs` before, wrapping around the address space.
    pub fn minus(self, rhs: Offset) -> (r: PhysAddr)
        ensures
            r.0 == wrap_sub(self.0, rhs.0),
    {
        PhysAddr(self.0.wrapping_sub(rhs.0))
    }

    /// The offset of this address from an address at or below it.
    pub fn offset_from(self, rhs: PhysAddr) -> (r: Offset)
        requires
            self.0 >= rhs.0,
        ensures
            r.0 == self.0 - rhs.0,
    {
        Offset(self.0 - rhs.0)
    }

    /// The address's text: `0x` and four hexadecimal digits.
    pub fn to_string(&self) -> (s: String)
        ensures
            s@ == hex4(self.0),
    {
        hex4_string(self.0)
    }
}

/// A contiguous range of the physical address space.
#[derive(Clone, Copy, Debug, PartialEq, Eq, Structural)]
pub struct MemoryRegion {
    pub begin: PhysAddr,
    pub length: Offset,
}

/// Whether the region starting at `begin` of `length` bytes holds `a`; the
/// end is computed with wrapping addition, so a region that wraps past the top
/// of the address space holds nothing.
pub open spec fn region_contains(begin: u16, length: u16, a: u16) -> bool {
    a >= begin && a < wrap_add(begin, length)
}

impl MemoryRegion {
    pub fn new(begin: PhysAddr, len: Offset) -> (r: MemoryRegion)
        ensures
            r.begin == begin,
            r.length == len,
    {
        MemoryRegion { begin, length: len }
    }

    pub open spec fn spec_contains(self, a: u16) -> bool {
        region_contains(self.begin.0, self.length.0, a)
    }

    /// Whether the region holds `addr`.
    pub fn contains(&self, addr: PhysAddr) -> (b: bool)
        ensures
            b == self.spec_contains(addr.0),
    {
        addr.0 >= self.begin.0 && addr.0 < self.begin.plus(self.length).0
    }
}

/// What an endpoint looks like from the memory fabric: the region it occupies
/// and the bytes it holds, the first at the region's beginning.
pub struct EndpointView {
    pub begin: u16,
    pub length: u16,
    pub bytes: Seq<u8>,
}

/// An endpoint holds a byte for every address of its region.
pub open spec fn ep_view_wf(e: EndpointView) -> bool {
    e.length <= e.bytes.len()
}

pub open spec fn ep_contains(e: EndpointView, a: u16) -> bool {
    region_contains(e.begin, e.length, a)
}

/// The byte that an endpoint holds at address `a`.
pub open spec fn ep_read(e: EndpointView, a: u16) -> u8 {
    e.bytes[a - e.begin]
}

/// The endpoint after a write of `v` at address `a`.
pub open spec fn ep_write(e: EndpointView, a: u16, v: u8) -> EndpointView {
    EndpointView { begin: e.begin, length: e.length, bytes: e.bytes.update(a - e.begin, v) }
}

/// An address inside an endpoint's region is inside its bytes.
pub proof fn lemma_ep_contains(e: EndpointView, a: u16)
    requires
        ep_view_wf(e),
        ep_contains(e, a),
    ensures
        0 <= a - e.begin < e.length,
        a - e.begin < e.bytes.len(),
{
}

/// A participant of the memory fabric: it occupies a region of the physical
/// address space and serves byte reads and writes inside it.
pub trait MemoryFabricEndpoint {
    /// The region and contents of the endpoint.
    spec fn endpoint_view(&self) -> EndpointView;

    /// The endpoint's internal invariant.
    spec fn endpoint_inv(&self) -> bool;

    /// The endpoint's name, if it has one.
    spec fn endpoint_id(&self) -> Option<Seq<char>>;

    /// A name for the endpoint, if it has one.
    fn id(&self) -> (r: Option<String>)
        ensures
            r is Some <==> self.endpoint_id() is Some,
            r matches Some(s) ==> self.endpoint_id() == Some(s@),
    ;

    /// The region that the endpoint occupies.
    fn region(&self) -> (r: MemoryRegion)
        requires
            self.endpoint_inv(),
        ensures
            r.begin.0 == self.endpoint_view().begin,
            r.length.0 == self.endpoint_view().length,
    ;

    /// The byte at an address of the endpoint's region.
    fn read_byte(&self, addr: PhysAddr) -> (b: u8)
        requires
            self.endpoint_inv(),
            ep_contains(self.endpoint_view(), addr.0),
        ensures
            b == ep_read(self.endpoint_view(), addr.0),
    ;

    /// Writes a byte at an address of the endpoint's region.
    fn write_byte(&mut self, addr: PhysAddr, val: u8)
        requires
            old(self).endpoint_inv(),
            ep_contains(old(self).endpoint_view(), addr.0),
        ensures
            final(self).endpoint_inv(),
            final(self).endpoint_view() == ep_write(old(self).endpoint_view(), addr.0, val),
    ;

    /// Stops the endpoint.
    fn kill(&self);
}

/// A request on the memory fabric, addressed by offset into the endpoint.
#[derive(Clone, Copy, Debug, PartialEq, Eq, Structural)]
pub enum MemoryOps {
    Read(Offset),
    Write(Offset, u8),
    Kill,
}

/// What a block answers to a request: the reply it sends, and whether it
/// keeps serving.
#[derive(Clone, Copy, Debug, PartialEq, Eq, Structural)]
pub struct BlockReply {
    pub reply: Option<u8>,
    pub keep_serving: bool,
}

/// What a block owes to a request, and what it holds afterwards: a read
/// replies with the byte at its offset, a write stores the byte and replies
/// with nothing, a kill replies with nothing and stops the block.
pub open spec fn block_step(contents: Seq<u8>, op: MemoryOps) -> (BlockReply, Seq<u8>) {
    match op {
        MemoryOps::Read(a) => (BlockReply { reply: Some(contents[a.0 as int]), keep_serving: true }, contents),
        MemoryOps::Write(a, v) => (
            BlockReply { reply: None, keep_serving: true },
            contents.update(a.0 as int, v),
        ),
        MemoryOps::Kill => (BlockReply { reply: None, keep_serving: false }, contents),
    }
}

/// Whether the offset of a request lies within the first `len` bytes.
pub open spec fn op_in_range(op: MemoryOps, len: int) -> bool {
    match op {
        MemoryOps::Read(a) => a.0 < len,
        MemoryOps::Write(a, _) => a.0 < len,
        MemoryOps::Kill => true,
    }
}

/// A hardware block on the memory fabric: it holds bytes and serves the
/// requests addressed to it, one at a time, until it is told to stop.
pub trait Block {
    /// The bytes the block holds.
    spec fn block_contents(&self) -> Seq<u8>;

    /// The block's internal invariant.
    spec fn block_inv(&self) -> bool;

    /// Serves one request.
    fn serve(&mut self, op: MemoryOps) -> (r: BlockReply)
        requires
            old(self).block_inv(),
            op_in_range(op, old(self).block_contents().len() as int),
        ensures
            final(self).block_inv(),
            (r, final(self).block_contents()) == block_step(old(self).block_contents(), op),
    ;
}

/// The replies of a block to a run of requests, served in order up to and
/// including the first kill, and what the block holds afterwards.
pub open spec fn dispatched(contents: Seq<u8>, ops: Seq<MemoryOps>) -> (Seq<Option<u8>>, Seq<u8>)
    decreases ops.len(),
{
    if ops.len() == 0 {
        (Seq::empty(), contents)
    } else {
        let (r, next) = block_step(contents, ops[0]);
        if !r.keep_serving {
            (seq![r.reply], next)
        } else {
            let rest = dispatched(next, ops.drop_first());
            (seq![r.reply] + rest.0, rest.1)
        }
    }
}

/// Serves a run of requests in order, up to and including the first kill,
/// and gives the replies.
pub fn dispatch<B: Block>(block: &mut B, ops: &Vec<MemoryOps>) -> (replies: Vec<Option<u8>>)
    requires
        old(block).block_inv(),
        forall|i: int|
            0 <= i < ops@.len() ==> op_in_range(#[trigger] ops@[i], old(block).block_contents().len() as int),
    ensures
        final(block).block_inv(),
        (replies@, final(block).block_contents()) == dispatched(old(block).block_contents(), ops@),
{
    let ghost c0 = block.block_contents();
    let mut replies: Vec<Option<u8>> = Vec::new();
    let mut i: usize = 0;
    assert(ops@.skip(0) =~= ops@);
    assert(replies@ + dispatched(c0, ops@).0 =~= dispatched(c0, ops@).0);
    while i < ops.len()
        invariant
            i <= ops@.len(),
            block.block_inv(),
            c0 == old(block).block_contents(),
            block.block_contents().len() == c0.len(),
            forall|j: int| 0 <= j < ops@.len() ==> op_in_range(#[trigger] ops@[j], c0.len() as int),
            (replies@ + dispatched(block.block_contents(), ops@.skip(i as int)).0, dispatched(
                block.block_contents(),
                ops@.skip(i as int),
            ).1) == dispatched(c0, ops@),
        decreases ops@.len() - i,
    {
        let ghost before = block.block_contents();
        let ghost rest = ops@.skip(i as int);
        assert(rest[0] == ops@[i as int]);
        let ghost earlier = replies@;
        let r = block.serve(ops[i]);
        replies.push(r.reply);
        assert(rest.drop_first() =~= ops@.skip(i + 1));
        if !r.keep_serving {
            assert(block_step(before, rest[0]) == (r, block.block_contents()));
            assert(dispatched(before, rest) == (seq![r.reply], block.block_contents()));
            assert(replies@ =~= earlier + seq![r.reply]);
            return replies;
        }
        assert(replies@.drop_last() + (seq![r.reply] + dispatched(block.block_contents(), ops@.skip(i + 1)).0)
            =~= replies@ + dispatched(block.block_contents(), ops@.skip(i + 1)).0);
        i = i + 1;
    }
    assert(ops@.skip(i as int) =~= Seq::<MemoryOps>::empty());
    assert(replies@ + Seq::<Option<u8>>::empty() =~= replies@);
    replies
}

/// The program memory: 4095 bytes at the top of the address space.
#[derive(Debug)]
pub struct Sram {
    inner: [u8; 0x0FFF],
}

/// Where the program memory sits.
pub const SRAM_BEGIN: u16 = 0xF000;

/// How long the program memory is.
pub const SRAM_LEN: u16 = 0x0FFF;

impl Sram {
    pub closed spec fn contents(&self) -> Seq<u8> {
        self.inner@
    }

    pub fn new(inner: [u8; 0x0FFF]) -> (r: Sram)
        ensures
            r.contents() == inner@,
    {
        Sram { inner }
    }

    /// A program memory that holds `image` followed by the filler byte
    /// `0x6B`; `None` where the image does not fit.
    pub fn from_image(image: &[u8]) -> (r: Option<Sram>)
        ensures
            match r {
                Some(s) => image@.len() <= SRAM_LEN && s.contents() == image@ + Seq::new(
                    (SRAM_LEN - image@.len()) as nat,
                    |i: int| 0x6Bu8,
                ),
                None => image@.len() > SRAM_LEN,
            },
    {
        if image.len() > 0x0FFF {
            return None;
        }
        let mut inner = [0x6Bu8; 0x0FFF];
        let mut i: usize = 0;
        while i < image.len()
            invariant
                i <= image@.len() <= 0x0FFF,
                inner@.len() == 0x0FFF,
                forall|j: int| 0 <= j < i ==> inner@[j] == image@[j],
                forall|j: int| i <= j < 0x0FFF ==> inner@[j] == 0x6Bu8,
            decreases image@.len() - i,
        {
            inner[i] = image[i];
            i = i + 1;
        }
        assert(inner@ =~= image@ + Seq::new((SRAM_LEN - image@.len()) as nat, |i: int| 0x6Bu8));
        Some(Sram { inner })
    }

    /// The region of the program memory.
    pub fn sram_region() -> (r: MemoryRegion)
        ensures
            r.begin.0 == SRAM_BEGIN,
            r.length.0 == SRAM_LEN,
    {
        MemoryRegion::new(PhysAddr::new(SRAM_BEGIN), Offset::new(SRAM_LEN))
    }

    fn normalize_addr(addr: PhysAddr) -> (r: Offset)
        requires
            addr.0 >= SRAM_BEGIN,
        ensures
            r.0 == addr.0 - SRAM_BEGIN,
    {
        addr.offset_from(PhysAddr::new(SRAM_BEGIN))
    }
}

impl MemoryFabricEndpoint for Sram {
    open spec fn endpoint_view(&self) -> EndpointView {
        EndpointView { begin: SRAM_BEGIN, length: SRAM_LEN, bytes: self.contents() }
    }

    open spec fn endpoint_inv(&self) -> bool {
        true
    }

    open spec fn endpoint_id(&self) -> Option<Seq<char>> {
        Some("SRAM"@)
    }

    fn id(&self) -> (r: Option<String>) {
        Some(String::from_str("SRAM"))
    }

    fn region(&self) -> (r: MemoryRegion) {
        Sram::sram_region()
    }

    fn read_byte(&self, addr: PhysAddr) -> (b: u8) {
        self.inner[Sram::normalize_addr(addr).into_raw() as usize]
    }

    fn write_byte(&mut self, addr: PhysAddr, val: u8) {
        let i = Sram::normalize_addr(addr).into_raw() as usize;
        self.inner[i] = val;
        assert(self.inner@ =~= old(self).inner@.update(i as int, val));
    }

    fn kill(&self) {
    }
}

/// The main memory: 64 KiB, of which the fabric maps the lowest 0xF000 bytes.
#[derive(Debug)]
pub struct Dram {
    inner: Vec<u8>,
}

/// Where the main memory sits.
pub const DRAM_BEGIN: u16 = 0x0000;

/// How much of the main memory the fabric maps.
pub const DRAM_LEN: u16 = 0xF000;

impl Dram {
    pub closed spec fn contents(&self) -> Seq<u8> {
        self.inner@
    }

    pub closed spec fn inv(&self) -> bool {
        self.inner@.len() == 0x10000
    }

    /// A main memory that holds zeros.
    pub fn new() -> (r: Dram)
        ensures
            r.inv(),
            r.contents() == Seq::new(0x10000, |i: int| 0u8),
    {
        let inner = vec![0u8; 0x10000];
        assert(inner@ =~= Seq::new(0x10000, |i: int| 0u8));
        Dram { inner }
    }

    /// The region of the main memory.
    pub fn dram_region() -> (r: MemoryRegion)
        ensures
            r.begin.0 == DRAM_BEGIN,
            r.length.0 == DRAM_LEN,
    {
        MemoryRegion::new(PhysAddr::new(DRAM_BEGIN), Offset::new(DRAM_LEN))
    }

    fn read_byte_at(&self, addr: Offset) -> (b: u8)
        requires
            self.inv(),
        ensures
            b == self.contents()[addr.0 as int],
    {
        self.inner[addr.into_raw() as usize]
    }

    fn write_byte_at(&mut self, addr: Offset, value: u8)
        requires
            old(self).inv(),
        ensures
            final(self).inv(),
            final(self).contents() == old(self).contents().update(addr.0 as int, value),
    {
        let i = addr.into_raw() as usize;
        self.inner.set(i, value);
    }

}

impl Block for Dram {
    open spec fn block_contents(&self) -> Seq<u8> {
        self.contents()
    }

    open spec fn block_inv(&self) -> bool {
        self.inv()
    }

    fn serve(&mut self, op: MemoryOps) -> (r: BlockReply) {
        match op {
            MemoryOps::Read(addr) => BlockReply {
                reply: Some(self.read_byte_at(addr)),
                keep_serving: true,
            },
            MemoryOps::Write(addr, value) => {
                self.write_byte_at(addr, value);
                BlockReply { reply: None, keep_serving: true }
            },
            MemoryOps::Kill => BlockReply { reply: None, keep_serving: false },
        }
    }
}

impl MemoryFabricEndpoint for Dram {
    open spec fn endpoint_view(&self) -> EndpointView {
        EndpointView { begin: DRAM_BEGIN, length: DRAM_LEN, bytes: self.contents() }
    }

    open spec fn endpoint_inv(&self) -> bool {
        self.inv()
    }

    open spec fn endpoint_id(&self) -> Option<Seq<char>> {
        Some("DRAM"@)
    }

    fn id(&self) -> (r: Option<String>) {
        Some(String::from_str("DRAM"))
    }

    fn region(&self) -> (r: MemoryRegion) {
        Dram::dram_region()
    }

    fn read_byte(&self, addr: PhysAddr) -> (b: u8) {
        self.read_byte_at(addr.offset_from(PhysAddr::new(DRAM_BEGIN)))
    }

    fn write_byte(&mut self, addr: PhysAddr, val: u8) {
        self.write_byte_at(addr.offset_from(PhysAddr::new(DRAM_BEGIN)), val);
    }

    fn kill(&self) {
    }
}

/// The console's character buffer length.
pub const CONSOLE_BUFFER_LEN: u16 = 64;

/// Where the console's buffer sits.
pub const CONSOLE_BEGIN: u16 = 0xE000;

/// The console: a buffer of characters mapped into the address space.
#[derive(Debug)]
pub struct Console {
    buffer: [u8; 64],
}

impl Console {
    pub closed spec fn contents(&self) -> Seq<u8> {
        self.buffer@
    }

    /// A console whose buffer holds zeros.
    pub fn new() -> (r: Console)
        ensures
            r.contents() == Seq::new(64, |i: int| 0u8),
    {
        let c = Console { buffer: [0u8; 64] };
        assert(c.buffer@ =~= Seq::new(64, |i: int| 0u8));
        c
    }

    /// The region of the console's buffer.
    pub fn console_region() -> (r: MemoryRegion)
        ensures
            r.begin.0 == CONSOLE_BEGIN,
            r.length.0 == CONSOLE_BUFFER_LEN,
    {
        MemoryRegion::new(PhysAddr::new(CONSOLE_BEGIN), Offset::new(CONSOLE_BUFFER_LEN))
    }

    fn write_at(&mut self, offset: Offset, value: u8)
        requires
            offset.0 < CONSOLE_BUFFER_LEN,
        ensures
            final(self).contents() == old(self).contents().update(offset.0 as int, value),
    {
        let i = offset.into_raw() as usize;
        self.buffer[i] = value;
        assert(self.buffer@ =~= old(self).buffer@.update(i as int, value));
    }

    /// The byte of the buffer at `i`.
    pub fn byte(&self, i: usize) -> (b: u8)
        requires
            i < 64,
        ensures
            b == self.contents()[i as int],
    {
        self.buffer[i]
    }
}

impl Block for Console {
    open spec fn block_contents(&self) -> Seq<u8> {
        self.contents()
    }

    open spec fn block_inv(&self) -> bool {
        true
    }

    fn serve(&mut self, op: MemoryOps) -> (r: BlockReply) {
        match op {
            MemoryOps::Read(addr) => BlockReply {
                reply: Some(self.buffer[addr.into_raw() as usize]),
                keep_serving: true,
            },
            MemoryOps::Write(addr, value) => {
                self.write_at(addr, value);
                BlockReply { reply: None, keep_serving: true }
            },
            MemoryOps::Kill => BlockReply { reply: None, keep_serving: false },
        }
    }
}

impl MemoryFabricEndpoint for Console {
    open spec fn endpoint_view(&self) -> EndpointView {
        EndpointView { begin: CONSOLE_BEGIN, length: CONSOLE_BUFFER_LEN, bytes: self.contents() }
    }

    open spec fn endpoint_inv(&self) -> bool {
        true
    }

    open spec fn endpoint_id(&self) -> Option<Seq<char>> {
        Some("Console"@)
    }

    fn id(&self) -> (r: Option<String>) {
        Some(String::from_str("Console"))
    }

    fn region(&self) -> (r: MemoryRegion) {
        Console::console_region()
    }

    fn read_byte(&self, addr: PhysAddr) -> (b: u8) {
        self.buffer[addr.offset_from(PhysAddr::new(CONSOLE_BEGIN)).into_raw() as usize]
    }

    fn write_byte(&mut self, addr: PhysAddr, val: u8) {
        self.write_at(addr.offset_from(PhysAddr::new(CONSOLE_BEGIN)), val);
    }

    fn kill(&self) {
    }
}

/// An endpoint registered with the memory controller.
#[derive(Debug)]
pub enum Endpoint {
    Sram(Sram),
    Dram(Dram),
    Console(Console),
}

impl MemoryFabricEndpoint for Endpoint {
    open spec fn endpoint_view(&self) -> EndpointView {
        match self {
            Endpoint::Sram(e) => e.endpoint_view(),
            Endpoint::Dram(e) => e.endpoint_view(),
            Endpoint::Console(e) => e.endpoint_view(),
        }
    }

    open spec fn endpoint_inv(&self) -> bool {
        match self {
            Endpoint::Sram(e) => e.endpoint_inv(),
            Endpoint::Dram(e) => e.endpoint_inv(),
            Endpoint::Console(e) => e.endpoint_inv(),
        }
    }

    open spec fn endpoint_id(&self) -> Option<Seq<char>> {
        match self {
            Endpoint::Sram(e) => e.endpoint_id(),
            Endpoint::Dram(e) => e.endpoint_id(),
            Endpoint::Console(e) => e.endpoint_id(),
        }
    }

    fn id(&self) -> (r: Option<String>) {
        match self {
            Endpoint::Sram(e) => e.id(),
            Endpoint::Dram(e) => e.id(),
            Endpoint::Console(e) => e.id(),
        }
    }

    fn region(&self) -> (r: MemoryRegion) {
        match self {
            Endpoint::Sram(e) => e.region(),
            Endpoint::Dram(e) => e.region(),
            Endpoint::Console(e) => e.region(),
        }
    }

    fn read_byte(&self, addr: PhysAddr) -> (b: u8) {
        match self {
            Endpoint::Sram(e) => e.read_byte(addr),
            Endpoint::Dram(e) => e.read_byte(addr),
            Endpoint::Console(e) => e.read_byte(addr),
        }
    }

    fn write_byte(&mut self, addr: PhysAddr, val: u8) {
        match self {
            Endpoint::Sram(e) => e.write_byte(addr, val),
            Endpoint::Dram(e) => e.write_byte(addr, val),
            Endpoint::Console(e) => e.write_byte(addr, val),
        }
    }

    fn kill(&self) {
        match self {
            Endpoint::Sram(e) => e.kill(),
            Endpoint::Dram(e) => e.kill(),
            Endpoint::Console(e) => e.kill(),
        }
    }
}

/// Every endpoint view holds a byte for each address of its region.
pub open spec fn eps_wf(eps: Seq<EndpointView>) -> bool {
    forall|i: int| 0 <= i < eps.len() ==> ep_view_wf(#[trigger] eps[i])
}

/// The first endpoint whose region holds `a`, counting from `from`.
pub open spec fn first_ep_from(eps: Seq<EndpointView>, a: u16, from: int) -> Option<int>
    decreases eps.len() - from,
{
    if from < 0 || from >= eps.len() {
        None
    } else if ep_contains(eps[from], a) {
        Some(from)
    } else {
        first_ep_from(eps, a, from + 1)
    }
}

/// The first endpoint whose region holds `a`: the one that serves it.
pub open spec fn first_ep(eps: Seq<EndpointView>, a: u16) -> Option<int> {
    first_ep_from(eps, a, 0)
}

/// The byte at `a`, or `None` where no endpoint maps `a`.
pub open spec fn mem_read(eps: Seq<EndpointView>, a: u16) -> Option<u8> {
    match first_ep(eps, a) {
        Some(i) => Some(ep_read(eps[i], a)),
        None => None,
    }
}

/// The endpoints after a write of `v` at `a`.
pub open spec fn mem_write(eps: Seq<EndpointView>, a: u16, v: u8) -> Seq<EndpointView> {
    match first_ep(eps, a) {
        Some(i) => eps.update(i, ep_write(eps[i], a, v)),
        None => eps,
    }
}

proof fn lemma_first_ep_from(eps: Seq<EndpointView>, a: u16, from: int)
    requires
        0 <= from,
    ensures
        match first_ep_from(eps, a, from) {
            Some(i) => from <= i < eps.len() && ep_contains(eps[i], a) && forall|j: int|
                from <= j < i ==> !ep_contains(#[trigger] eps[j], a),
            None => forall|j: int| from <= j < eps.len() ==> !ep_contains(#[trigger] eps[j], a),
        },
    decreases eps.len() - from,
{
    if from < eps.len() && !ep_contains(eps[from], a) {
        lemma_first_ep_from(eps, a, from + 1);
    }
}

/// `first_ep` is the first endpoint that holds the address.
pub proof fn lemma_first_ep(eps: Seq<EndpointView>, a: u16)
    ensures
        match first_ep(eps, a) {
            Some(i) => 0 <= i < eps.len() && ep_contains(eps[i], a) && forall|j: int|
                0 <= j < i ==> !ep_contains(#[trigger] eps[j], a),
            None => forall|j: int| 0 <= j < eps.len() ==> !ep_contains(#[trigger] eps[j], a),
        },
{
    lemma_first_ep_from(eps, a, 0);
}

proof fn lemma_first_ep_unique(eps: Seq<EndpointView>, a: u16, i: int)
    requires
        0 <= i < eps.len(),
        ep_contains(eps[i], a),
        forall|j: int| 0 <= j < i ==> !ep_contains(#[trigger] eps[j], a),
    ensures
        first_ep(eps, a) == Some(i),
{
    lemma_first_ep(eps, a);
    match first_ep(eps, a) {
        Some(k) => {
            if k < i {
                assert(!ep_contains(eps[k], a));
            } else if k > i {
                assert(!ep_contains(eps[i], a));
            }
        },
        None => {
            assert(!ep_contains(eps[i], a));
        },
    }
}

/// Endpoints whose regions are the same route every address the same way.
proof fn lemma_same_regions(e1: Seq<EndpointView>, e2: Seq<EndpointView>, a: u16)
    requires
        e1.len() == e2.len(),
        forall|j: int|
            0 <= j < e1.len() ==> (#[trigger] e1[j]).begin == e2[j].begin && e1[j].length
                == e2[j].length,
    ensures
        first_ep(e1, a) == first_ep(e2, a),
{
    lemma_first_ep(e1, a);
    lemma_first_ep(e2, a);
    match first_ep(e1, a) {
        Some(i) => {
            assert forall|j: int| 0 <= j < i implies !ep_contains(#[trigger] e2[j], a) by {
                assert(!ep_contains(e1[j], a));
            }
            lemma_first_ep_unique(e2, a, i);
        },
        None => {
            match first_ep(e2, a) {
                Some(k) => {
                    assert(!ep_contains(e1[k], a));
                },
                None => {},
            }
        },
    }
}

/// A write leaves the regions, and so the routing of every address, as they were.
pub proof fn lemma_write_keeps_routing(eps: Seq<EndpointView>, a: u16, v: u8, b: u16)
    ensures
        first_ep(mem_write(eps, a, v), b) == first_ep(eps, b),
        mem_write(eps, a, v).len() == eps.len(),
        eps_wf(eps) ==> eps_wf(mem_write(eps, a, v)),
{
    lemma_first_ep(eps, a);
    let w = mem_write(eps, a, v);
    assert forall|j: int| 0 <= j < eps.len() implies (#[trigger] eps[j]).begin == w[j].begin
        && eps[j].length == w[j].length by {}
    lemma_same_regions(eps, w, b);
    if eps_wf(eps) {
        assert forall|j: int| 0 <= j < w.len() implies ep_view_wf(#[trigger] w[j]) by {
            assert(ep_view_wf(eps[j]));
        }
    }
}

/// A read of the address just written gives the byte written, and a read of
/// any other address gives what it gave before; the set of mapped addresses
/// does not change.
pub proof fn lemma_read_after_write(eps: Seq<EndpointView>, a: u16, v: u8, b: u16)
    requires
        eps_wf(eps),
        mem_read(eps, a) is Some,
    ensures
        mem_read(mem_write(eps, a, v), a) == Some(v),
        b != a ==> mem_read(mem_write(eps, a, v), b) == mem_read(eps, b),
        (mem_read(mem_write(eps, a, v), b) is Some) == (mem_read(eps, b) is Some),
{
    lemma_write_keeps_routing(eps, a, v, b);
    lemma_write_keeps_routing(eps, a, v, a);
    lemma_first_ep(eps, a);
    lemma_first_ep(eps, b);
    let i = first_ep(eps, a).unwrap();
    lemma_ep_contains(eps[i], a);
    if b != a {
        match first_ep(eps, b) {
            Some(k) => {
                lemma_ep_contains(eps[k], b);
                if k == i {
                    assert(b - eps[i].begin != a - eps[i].begin);
                }
            },
            None => {},
        }
    }
}

/// How a controller's description shows one endpoint: a tab, the endpoint's
/// name (`UNKNOWN` where it has none), then `: [`, the beginning and the end
/// of its region, each as `0x` and four hexadecimal digits, apart by `-`, and
/// `]`.
pub open spec fn ep_description(id: Option<Seq<char>>, e: EndpointView) -> Seq<char> {
    seq!['\t'] + (match id {
        Some(s) => s,
        None => "UNKNOWN"@,
    }) + seq![':', ' ', '['] + hex4(e.begin) + seq!['-'] + hex4(wrap_add(e.begin, e.length)) + seq![
        ']',
    ]
}

/// The descriptions of the first `n` endpoints, one after the other.
pub open spec fn eps_description(ids: Seq<Option<Seq<char>>>, eps: Seq<EndpointView>, n: int) -> Seq<
    char,
>
    decreases n,
{
    if n <= 0 {
        Seq::empty()
    } else {
        eps_description(ids, eps, n - 1) + ep_description(ids[n - 1], eps[n - 1])
    }
}

/// A controller's description: `Memory Controller EPs:` and each endpoint's.
pub open spec fn description(ids: Seq<Option<Seq<char>>>, eps: Seq<EndpointView>) -> Seq<char> {
    "Memory Controller EPs:"@ + eps_description(ids, eps, eps.len() as int)
}

/// Routes byte accesses to the endpoint whose region holds the address.
#[derive(Debug)]
pub struct MemoryController {
    eps: Vec<Endpoint>,
    reads: u64,
    writes: u64,
}

impl MemoryController {
    /// The endpoints as the fabric sees them, in the order they were registered.
    pub closed spec fn view(&self) -> Seq<EndpointView> {
        self.eps@.map_values(|e: Endpoint| e.endpoint_view())
    }

    pub closed spec fn inv(&self) -> bool {
        forall|i: int| 0 <= i < self.eps@.len() ==> (#[trigger] self.eps@[i]).endpoint_inv()
    }

    /// The number of reads made through `read`, modulo 2^64.
    pub closed spec fn spec_reads(&self) -> u64 {
        self.reads
    }

    /// The number of writes made through `write`, modulo 2^64.
    pub closed spec fn spec_writes(&self) -> u64 {
        self.writes
    }

    /// The number of reads made through `read`, modulo 2^64.
    pub fn reads(&self) -> (n: u64)
        ensures
            n == self.spec_reads(),
    {
        self.reads
    }

    /// The number of writes made through `write`, modulo 2^64.
    pub fn writes(&self) -> (n: u64)
        ensures
            n == self.spec_writes(),
    {
        self.writes
    }

    /// The byte at `a`, or `None` where `a` is unmapped.
    pub open spec fn spec_read(&self, a: u16) -> Option<u8> {
        mem_read(self@, a)
    }

    /// The number of registered endpoints.
    pub fn len(&self) -> (n: usize)
        ensures
            n == self@.len(),
    {
        self.eps.len()
    }

    /// The `i`-th registered endpoint.
    pub fn endpoint(&self, i: usize) -> (e: &Endpoint)
        requires
            i < self@.len(),
        ensures
            e.endpoint_view() == self@[i as int],
            e.endpoint_id() == self.ids()[i as int],
    {
        &self.eps[i]
    }

    /// The names of the endpoints, in the order they were registered.
    pub closed spec fn ids(&self) -> Seq<Option<Seq<char>>> {
        self.eps@.map_values(|e: Endpoint| e.endpoint_id())
    }

    /// The controller's description: each endpoint's name and region.
    pub fn describe(&self) -> (s: String)
        requires
            self.inv(),
        ensures
            s@ == description(self.ids(), self@),
    {
        proof {
            reveal_strlit("Memory Controller EPs:");
        }
        let mut s = String::from_str("Memory Controller EPs:");
        let mut i: usize = 0;
        while i < self.eps.len()
            invariant
                i <= self.eps@.len(),
                self.inv(),
                s@ == "Memory Controller EPs:"@ + eps_description(self.ids(), self@, i as int),
            decreases self.eps@.len() - i,
        {
            proof {
                reveal_strlit("\t");
                reveal_strlit(": [");
                reveal_strlit("-");
                reveal_strlit("]");
                assert("\t"@ =~= seq!['\t']);
                assert(": ["@ =~= seq![':', ' ', '[']);
                assert("-"@ =~= seq!['-']);
                assert("]"@ =~= seq![']']);
            }
            let ep = &self.eps[i];
            let region = ep.region();
            let ghost before = s@;
            s.append("\t");
            let ghost after_tab = s@;
            match ep.id() {
                Some(name) => s.append(name.as_str()),
                None => s.append("UNKNOWN"),
            }
            proof {
                assert(s@ =~= after_tab + (match ep.endpoint_id() {
                    Some(x) => x,
                    None => "UNKNOWN"@,
                }));
            }
            s.append(": [");
            s.append(region.begin.to_string().as_str());
            s.append("-");
            s.append(region.begin.plus(region.length).to_string().as_str());
            s.append("]");
            proof {
                assert(self.ids()[i as int] == ep.endpoint_id());
                assert(self@[i as int] == ep.endpoint_view());
                assert(s@ =~= before + ep_description(self.ids()[i as int], self@[i as int]));
            }
            i = i + 1;
        }
        s
    }

    /// The invariant gives well-formed endpoint views.
    pub proof fn lemma_inv_wf(&self)
        requires
            self.inv(),
        ensures
            eps_wf(self@),
    {
        assert forall|i: int| 0 <= i < self@.len() implies ep_view_wf(#[trigger] self@[i]) by {
            let e = self.eps@[i];
            assert(e.endpoint_inv());
            match e {
                Endpoint::Sram(s) => {},
                Endpoint::Dram(d) => {},
                Endpoint::Console(c) => {},
            }
        }
    }

    /// A controller with no endpoints.
    pub fn new() -> (r: MemoryController)
        ensures
            r.inv(),
            r@ == Seq::<EndpointView>::empty(),
            r.ids() == Seq::<Option<Seq<char>>>::empty(),
            r.spec_reads() == 0,
            r.spec_writes() == 0,
    {
        let r = MemoryController { eps: Vec::new(), reads: 0, writes: 0 };
        assert(r@ =~= Seq::<EndpointView>::empty());
        assert(r.ids() =~= Seq::<Option<Seq<char>>>::empty());
        r
    }

    /// Registers an endpoint after those already registered. Regions may
    /// overlap; an address is served by the first endpoint that holds it.
    pub fn reg_mem_ep(&mut self, ep: Endpoint)
        requires
            old(self).inv(),
            ep.endpoint_inv(),
        ensures
            final(self).inv(),
            final(self)@ == old(self)@.push(ep.endpoint_view()),
            final(self).ids() == old(self).ids().push(ep.endpoint_id()),
            final(self).spec_reads() == old(self).spec_reads(),
            final(self).spec_writes() == old(self).spec_writes(),
    {
        self.eps.push(ep);
        assert(self@ =~= old(self)@.push(ep.endpoint_view()));
        assert(self.ids() =~= old(self).ids().push(ep.endpoint_id()));
    }

    /// The machine's memory map: the console, then main memory, then the
    /// program memory `sram`. The console's buffer lies inside main memory's
    /// range, and the first endpoint that holds an address serves it, so what
    /// a program writes there reaches the console.
    pub fn machine_map(sram: Sram) -> (r: MemoryController)
        ensures
            r.inv(),
            r@ == seq![
                EndpointView {
                    begin: CONSOLE_BEGIN,
                    length: CONSOLE_BUFFER_LEN,
                    bytes: Seq::new(64, |i: int| 0u8),
                },
                EndpointView {
                    begin: DRAM_BEGIN,
                    length: DRAM_LEN,
                    bytes: Seq::new(0x10000, |i: int| 0u8),
                },
                EndpointView { begin: SRAM_BEGIN, length: SRAM_LEN, bytes: sram.contents() },
            ],
            r.ids() == seq![Some("Console"@), Some("DRAM"@), Some("SRAM"@)],
            r.spec_reads() == 0,
            r.spec_writes() == 0,
    {
        let mut r = MemoryController::new();
        let ghost sram_view = sram.endpoint_view();
        r.reg_mem_ep(Endpoint::Console(Console::new()));
        r.reg_mem_ep(Endpoint::Dram(Dram::new()));
        r.reg_mem_ep(Endpoint::Sram(sram));
        assert(r@ =~= seq![
            EndpointView {
                begin: CONSOLE_BEGIN,
                length: CONSOLE_BUFFER_LEN,
                bytes: Seq::new(64, |i: int| 0u8),
            },
            EndpointView {
                begin: DRAM_BEGIN,
                length: DRAM_LEN,
                bytes: Seq::new(0x10000, |i: int| 0u8),
            },
            sram_view,
        ]);
        assert(r.ids() =~= seq![Some("Console"@), Some("DRAM"@), Some("SRAM"@)]);
        r
    }

    /// The index of the endpoint that serves `addr`, if any.
    fn find_ep(&self, addr: PhysAddr) -> (r: Option<usize>)
        requires
            self.inv(),
        ensures
            match r {
                Some(i) => first_ep(self@, addr.0) == Some(i as int),
                None => first_ep(self@, addr.0) == None::<int>,
            },
    {
        let mut i: usize = 0;
        while i < self.eps.len()
            invariant
                i <= self.eps@.len(),
                self.inv(),
                forall|j: int| 0 <= j < i ==> !ep_contains(#[trigger] self@[j], addr.0),
            decreases self.eps@.len() - i,
        {
            let region = self.eps[i].region();
            if region.contains(addr) {
                proof {
                    lemma_first_ep_unique(self@, addr.0, i as int);
                }
                return Some(i);
            }
            i = i + 1;
        }
        proof {
            lemma_first_ep(self@, addr.0);
            match first_ep(self@, addr.0) {
                Some(k) => {
                    assert(!ep_contains(self@[k], addr.0));
                },
                None => {},
            }
        }
        None
    }

    /// Whether an endpoint maps `addr`.
    pub fn is_mapped(&self, addr: PhysAddr) -> (b: bool)
        requires
            self.inv(),
        ensures
            b == (self.spec_read(addr.0) is Some),
    {
        self.find_ep(addr).is_some()
    }

    /// Reads a byte, counting the read; the address must be mapped.
    pub fn read(&mut self, address: PhysAddr) -> (b: u8)
        requires
            old(self).inv(),
            old(self).spec_read(address.0) is Some,
        ensures
            Some(b) == old(self).spec_read(address.0),
            final(self).inv(),
            final(self)@ == old(self)@,
            final(self).ids() == old(self).ids(),
            final(self).spec_reads() as int == (old(self).spec_reads() as int + 1) % 0x1_0000_0000_0000_0000,
            final(self).spec_writes() == old(self).spec_writes(),
    {
        self.reads = self.reads.wrapping_add(1);
        self.sideband_read(address)
    }

    /// Writes a byte, counting the write; the address must be mapped.
    pub fn write(&mut self, address: PhysAddr, value: u8)
        requires
            old(self).inv(),
            old(self).spec_read(address.0) is Some,
        ensures
            final(self).inv(),
            final(self)@ == mem_write(old(self)@, address.0, value),
            final(self).spec_read(address.0) == Some(value),
            forall|b: u16|
                b != address.0 ==> #[trigger] final(self).spec_read(b) == old(self).spec_read(b),
            final(self).ids() == old(self).ids(),
            final(self).spec_reads() == old(self).spec_reads(),
            final(self).spec_writes() as int == (old(self).spec_writes() as int + 1) % 0x1_0000_0000_0000_0000,
    {
        proof {
            self.lemma_inv_wf();
            lemma_read_after_write(self@, address.0, value, address.0);
            assert forall|b: u16| b != address.0 implies mem_read(
                mem_write(old(self)@, address.0, value),
                b,
            ) == mem_read(old(self)@, b) by {
                lemma_read_after_write(old(self)@, address.0, value, b);
            }
        }
        self.writes = self.writes.wrapping_add(1);
        let i = match self.find_ep(address) {
            Some(i) => i,
            None => {
                return;
            },
        };
        proof {
            lemma_first_ep(self@, address.0);
            assert(self@.len() == self.eps@.len());
        }
        let mut ep = self.eps.remove(i);
        proof {
            assert(ep == old(self).eps@[i as int]);
            assert(ep.endpoint_inv());
        }
        ep.write_byte(address, value);
        self.eps.insert(i, ep);
        proof {
            assert(self.eps@ =~= old(self).eps@.update(i as int, ep));
            assert(self@ =~= mem_write(old(self)@, address.0, value));
        }
    }

    /// Reads a byte without accounting for it; the address must be mapped.
    pub fn sideband_read(&self, addr: PhysAddr) -> (b: u8)
        requires
            self.inv(),
            self.spec_read(addr.0) is Some,
        ensures
            Some(b) == self.spec_read(addr.0),
    {
        match self.find_ep(addr) {
            Some(i) => {
                proof {
                    lemma_first_ep(self@, addr.0);
                }
                self.eps[i].read_byte(addr)
            },
            None => 0,
        }
    }

    /// Stops every endpoint.
    pub fn kill(&self)
        requires
            self.inv(),
    {
        let mut i: usize = 0;
        while i < self.eps.len()
            invariant
                i <= self.eps@.len(),
            decreases self.eps@.len() - i,
        {
            self.eps[i].kill();
            i = i + 1;
        }
    }
}

} // verus!

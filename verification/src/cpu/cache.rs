//! The L1 cache: 2-way set associative, 8 sets, two-byte lines, random
//! eviction.

use vstd::prelude::*;

use crate::cfg::CacheLine;
use rand::RngCore;

use crate::text::{hex4_lower, hex4_lower_string, hex_lower, hex_lower_string};

verus! {

/// A cached line: the tag of its address and its two bytes.
#[derive(Debug, Clone, Copy, PartialEq, Eq, Structural)]
pub struct CacheEntry {
    pub tag: u16,
    pub val: CacheLine,
}

impl CacheEntry {
    pub open spec fn spec_tag(self) -> u16 {
        self.tag
    }

    pub open spec fn spec_val(self) -> CacheLine {
        self.val
    }

    pub fn new(tag: u16, val: CacheLine) -> (r: CacheEntry)
        ensures
            r.spec_tag() == tag,
            r.spec_val() == val,
    {
        CacheEntry { tag, val }
    }

    pub fn tag(&self) -> (t: u16)
        ensures
            t == self.spec_tag(),
    {
        self.tag
    }

    pub fn val(&self) -> (v: CacheLine)
        ensures
            v == self.spec_val(),
    {
        self.val
    }
    /// The entry's text: `0x`, the tag in lower-case hexadecimal, `:0x` and the line as four lower-case hexadecimal digits.
    pub open spec fn spec_text(self) -> Seq<char> {
        seq!['0', 'x'] + hex_lower(self.tag as nat) + seq![':', '0', 'x'] + hex4_lower(self.val)
    }

    /// The entry as the cache view shows it (see `spec_text`).
    pub fn to_string(&self) -> (s: String)
        ensures
            s@ == self.spec_text(),
    {
        proof {
            reveal_strlit("0x");
            reveal_strlit(":0x");
        }
        let mut s = String::from_str("0x");
        let tag = hex_lower_string(self.tag as u16);
        s.append(tag.as_str());
        s.append(":0x");
        let val = hex4_lower_string(self.val);
        s.append(val.as_str());
        assert(s@ =~= self.spec_text());
        s
    }
}

/// An address as the cache splits it: bit 0 is the offset in the line, bits
/// 1 to 3 the set, bits 4 to 15 the tag.
#[derive(Debug, Clone, Copy, PartialEq, Eq, Structural)]
pub struct CacheAddr(pub u16);

impl CacheAddr {
    pub open spec fn spec_offset(self) -> int {
        self.0 as int % 2
    }

    pub open spec fn spec_index(self) -> int {
        (self.0 as int / 2) % 8
    }

    pub open spec fn spec_tag(self) -> u16 {
        (self.0 as int / 16) as u16
    }

    pub fn from(value: u16) -> (r: CacheAddr)
        ensures
            r.0 == value,
    {
        CacheAddr(value)
    }

    pub fn into_bits(self) -> (v: u16)
        ensures
            v == self.0,
    {
        self.0
    }

    pub fn offset(&self) -> (o: usize)
        ensures
            o as int == self.spec_offset(),
    {
        (self.0 % 2) as usize
    }

    pub fn index(&self) -> (i: usize)
        ensures
            i as int == self.spec_index(),
    {
        ((self.0 / 2) % 8) as usize
    }

    pub fn tag(&self) -> (t: u16)
        ensures
            t == self.spec_tag(),
    {
        self.0 / 16
    }
}

/// The address of the first byte of the line that set `set` holds under `tag`.
pub open spec fn line_addr(set: int, tag: u16) -> int {
    tag as int * 16 + set * 2
}

/// A line's address splits back into its set and tag.
pub proof fn lemma_line_addr(set: int, tag: u16)
    requires
        0 <= set < 8,
        tag < 4096,
    ensures
        0 <= line_addr(set, tag) <= 0xFFFE,
        line_addr(set, tag) % 2 == 0,
        CacheAddr(line_addr(set, tag) as u16).spec_index() == set,
        CacheAddr(line_addr(set, tag) as u16).spec_tag() == tag,
        CacheAddr((line_addr(set, tag) + 1) as u16).spec_index() == set,
        CacheAddr((line_addr(set, tag) + 1) as u16).spec_tag() == tag,
{
}

/// An address lies in the line of its set and tag.
pub proof fn lemma_addr_line(a: u16)
    ensures
        line_addr(CacheAddr(a).spec_index(), CacheAddr(a).spec_tag()) == a as int - a as int % 2,
        CacheAddr(a).spec_tag() < 4096,
        0 <= CacheAddr(a).spec_index() < 8,
{
}

/// The contents of a set: its two ways.
pub type CacheSet = [Option<CacheEntry>; 2];

/// The way that an insert of `tag` into `set` writes: the first way holding
/// `tag`, else the first empty way, else `victim`.
pub open spec fn insert_way(set: Seq<Option<CacheEntry>>, tag: u16, victim: int) -> int {
    if set[0] is Some && set[0]->0.spec_tag() == tag {
        0
    } else if set[1] is Some && set[1]->0.spec_tag() == tag {
        1
    } else if set[0] is None {
        0
    } else if set[1] is None {
        1
    } else {
        victim
    }
}

/// The line that a set holds under `tag`: the first way holding it.
pub open spec fn set_lookup(set: Seq<Option<CacheEntry>>, tag: u16) -> Option<CacheLine> {
    if set[0] is Some && set[0]->0.spec_tag() == tag {
        Some(set[0]->0.spec_val())
    } else if set[1] is Some && set[1]->0.spec_tag() == tag {
        Some(set[1]->0.spec_val())
    } else {
        None
    }
}

/// The L1 cache.
#[derive(Debug)]
pub struct Cache {
    inner: [CacheSet; 8],
    highlighted: Vec<(usize, usize)>,
}

impl Cache {
    /// The ways of each set.
    pub closed spec fn sets(&self) -> Seq<Seq<Option<CacheEntry>>> {
        self.inner@.map_values(|s: CacheSet| s@)
    }

    /// The (set, way) positions written since the highlights were last cleared.
    pub closed spec fn highlights(&self) -> Seq<(usize, usize)> {
        self.highlighted@
    }

    /// The entry held at a set and way.
    pub open spec fn spec_entry(&self, set: int, way: int) -> Option<CacheEntry> {
        self.sets()[set][way]
    }

    /// Every cached line has a 12-bit tag, and the two ways of a set never
    /// hold the same tag.
    pub open spec fn inv(&self) -> bool {
        &&& self.sets().len() == 8
        &&& forall|s: int| 0 <= s < 8 ==> (#[trigger] self.sets()[s]).len() == 2
        &&& forall|s: int, w: int|
            0 <= s < 8 && 0 <= w < 2 && (#[trigger] self.spec_entry(s, w)) is Some
                ==> self.spec_entry(s, w)->0.spec_tag() < 4096
        &&& forall|s: int|
            0 <= s < 8 && (#[trigger] self.sets()[s])[0] is Some && self.sets()[s][1] is Some
                ==> self.sets()[s][0]->0.spec_tag() != self.sets()[s][1]->0.spec_tag()
    }

    /// The line that the cache holds for the line of `a`, if any.
    pub open spec fn spec_lookup(&self, a: u16) -> Option<CacheLine> {
        set_lookup(self.sets()[CacheAddr(a).spec_index()], CacheAddr(a).spec_tag())
    }

    /// The sets after an insert of `value` for `a` that evicts `victim` if it must.
    pub open spec fn inserted(&self, a: u16, value: CacheLine, victim: int) -> Seq<
        Seq<Option<CacheEntry>>,
    > {
        let s = CacheAddr(a).spec_index();
        let set = self.sets()[s];
        let w = insert_way(set, CacheAddr(a).spec_tag(), victim);
        self.sets().update(s, set.update(w, Some(CacheEntry { tag: CacheAddr(a).spec_tag(), val: value })))
    }

    proof fn lemma_sets(&self)
        ensures
            self.sets().len() == 8,
            forall|s: int| 0 <= s < 8 ==> (#[trigger] self.sets()[s]).len() == 2,
            forall|s: int, w: int|
                0 <= s < 8 && 0 <= w < 2 ==> #[trigger] self.sets()[s][w] == self.inner@[s]@[w],
    {
    }

    /// An empty cache.
    pub fn new() -> (r: Cache)
        ensures
            r.inv(),
            r.highlights() == Seq::<(usize, usize)>::empty(),
            forall|s: int, w: int| 0 <= s < 8 && 0 <= w < 2 ==> #[trigger] r.spec_entry(s, w) is None,
    {
        let r = Cache { inner: [[None, None]; 8], highlighted: Vec::new() };
        proof {
            r.lemma_sets();
        }
        r
    }

    /// The entry at a set and way.
    pub fn entry(&self, set: usize, way: usize) -> (e: Option<CacheEntry>)
        requires
            self.inv(),
            set < 8,
            way < 2,
        ensures
            e == self.spec_entry(set as int, way as int),
    {
        proof {
            self.lemma_sets();
        }
        self.inner[set][way]
    }

    /// Whether the entry at a set and way was written since the highlights
    /// were last cleared.
    pub fn is_highlighted(&self, set: usize, way: usize) -> (b: bool)
        ensures
            b == self.highlights().contains((set, way)),
    {
        let mut i: usize = 0;
        while i < self.highlighted.len()
            invariant
                i <= self.highlighted@.len(),
                forall|j: int| 0 <= j < i ==> self.highlighted@[j] != (set, way),
            decreases self.highlighted@.len() - i,
        {
            let (s, w) = self.highlighted[i];
            if s == set && w == way {
                assert(self.highlights()[i as int] == (set, way));
                return true;
            }
            i = i + 1;
        }
        false
    }

    /// The line cached for the line of `addr`: the first way of its set whose
    /// tag matches.
    pub fn lookup(&self, addr: CacheAddr) -> (r: Option<CacheLine>)
        requires
            self.inv(),
        ensures
            r == self.spec_lookup(addr.0),
    {
        proof {
            self.lemma_sets();
        }
        let set = self.inner[addr.index()];
        let tag = addr.tag();
        match set[0] {
            Some(e) => {
                if e.tag == tag {
                    return Some(e.val);
                }
            },
            None => {},
        }
        match set[1] {
            Some(e) => {
                if e.tag == tag {
                    return Some(e.val);
                }
            },
            None => {},
        }
        None
    }

    /// Inserts the line for `addr`, the offset ignored: into the way that
    /// holds the same tag, else into an empty way, else over the way chosen
    /// by the low bit of `rand_bits`.
    pub fn insert_evicting(&mut self, addr: CacheAddr, value: CacheLine, rand_bits: u32)
        requires
            old(self).inv(),
        ensures
            final(self).inv(),
            final(self).sets() == old(self).inserted(addr.0, value, (rand_bits % 2) as int),
            final(self).highlights() == old(self).highlights().push(
                (
                    addr.spec_index() as usize,
                    insert_way(
                        old(self).sets()[addr.spec_index()],
                        addr.spec_tag(),
                        (rand_bits % 2) as int,
                    ) as usize,
                ),
            ),
    {
        proof {
            self.lemma_sets();
        }
        let index = addr.index();
        let tag = addr.tag();
        let new_entry = CacheEntry { tag, val: value };
        let mut set = self.inner[index];
        let which: usize = if set[0].is_some() && set[0].unwrap().tag == tag {
            0
        } else if set[1].is_some() && set[1].unwrap().tag == tag {
            1
        } else if set[0].is_none() {
            0
        } else if set[1].is_none() {
            1
        } else {
            (rand_bits % 2) as usize
        };
        set[which] = Some(new_entry);
        self.inner[index] = set;
        self.highlighted.push((index, which));
        proof {
            self.lemma_sets();
            assert(self.sets() =~= old(self).inserted(addr.0, value, (rand_bits % 2) as int));
            assert forall|s: int, w: int|
                0 <= s < 8 && 0 <= w < 2 && (#[trigger] self.spec_entry(s, w)) is Some
                    implies self.spec_entry(s, w)->0.spec_tag() < 4096 by {
                if s != index || w != which {
                    assert(self.spec_entry(s, w) == old(self).spec_entry(s, w));
                }
            }
            assert forall|s: int|
                0 <= s < 8 && (#[trigger] self.sets()[s])[0] is Some && self.sets()[s][1] is Some
                    implies self.sets()[s][0]->0.spec_tag() != self.sets()[s][1]->0.spec_tag() by {
                if s != index {
                    assert(self.sets()[s] == old(self).sets()[s]);
                } else {
                    assert(old(self).sets()[s] == old(self).inner@[s]@);
                }
            }
        }
    }

    /// Inserts the line for `addr`, the offset ignored: into the way that
    /// holds the same tag, else into an empty way, else over a way chosen at
    /// random.
    pub fn insert(&mut self, addr: CacheAddr, value: CacheLine)
        requires
            old(self).inv(),
        ensures
            final(self).inv(),
            exists|victim: int|
                0 <= victim < 2 && final(self).sets() == old(self).inserted(addr.0, value, victim)
                    && final(self).highlights() == old(self).highlights().push(
                    (
                        addr.spec_index() as usize,
                        insert_way(old(self).sets()[addr.spec_index()], addr.spec_tag(), victim)
                            as usize,
                    ),
                ),
            final(self).spec_lookup(addr.0) == Some(value),
    {
        let bits = random_u32();
        self.insert_evicting(addr, value, bits);
        proof {
            lemma_lookup_after_insert(old(self), addr.0, value, (bits % 2) as int);
            assert(final(self).sets() == old(self).inserted(addr.0, value, (bits % 2) as int));
        }
    }

    /// Forgets which entries were written.
    pub fn clear_highlights(&mut self)
        requires
            old(self).inv(),
        ensures
            final(self).inv(),
            final(self).sets() == old(self).sets(),
            final(self).highlights() == Seq::<(usize, usize)>::empty(),
    {
        self.highlighted.clear();
        proof {
            assert(self.sets() == old(self).sets());
            assert forall|s: int, w: int|
                0 <= s < 8 && 0 <= w < 2 && (#[trigger] self.spec_entry(s, w)) is Some
                    implies self.spec_entry(s, w)->0.spec_tag() < 4096 by {
                assert(self.spec_entry(s, w) == old(self).spec_entry(s, w));
            }
            assert forall|s: int|
                0 <= s < 8 && (#[trigger] self.sets()[s])[0] is Some && self.sets()[s][1] is Some
                    implies self.sets()[s][0]->0.spec_tag() != self.sets()[s][1]->0.spec_tag() by {
                assert(self.sets()[s] == old(self).sets()[s]);
            }
        }
    }
}

/// A lookup of the line just inserted gives the inserted line, whatever way
/// was evicted; every other set is left as it was.
pub proof fn lemma_lookup_after_insert(c: &Cache, a: u16, value: CacheLine, victim: int)
    requires
        c.inv(),
        0 <= victim < 2,
    ensures
        set_lookup(c.inserted(a, value, victim)[CacheAddr(a).spec_index()], CacheAddr(a).spec_tag())
            == Some(value),
        forall|s: int|
            0 <= s < 8 && s != CacheAddr(a).spec_index() ==> #[trigger] c.inserted(
                a,
                value,
                victim,
            )[s] == c.sets()[s],
{
}

/// A random word, from the thread-local generator of `rand`
/// (`rand::rng()`, then `RngCore::next_u32`). Nothing is stated of the result:
/// any word may come back.
#[verifier::external_body]
pub(crate) fn random_u32() -> u32 {
    rand::rng().next_u32()
}

} // verus!

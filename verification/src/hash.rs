//! Identifier hashing.
//!
//! Every name in a program (tables, column aliases, operators, argument
//! names) is carried as the low 56 bits of the SeaHash of its bytes. For
//! people, such a hash is written as four syllables.

use vstd::prelude::*;
use vstd::string::{StrSliceExecFns, StringExecFns, StringSliceAdditionalSpecFns};

verus! {

/// The 64-bit SeaHash of a byte string, with the seed that `seahash::hash`
/// fixes. It depends on the bytes alone.
pub uninterp spec fn seahash_of(bytes: Seq<u8>) -> u64;

/// Calls `seahash::hash`, which hashes the buffer with a seed chosen once and
/// for all: the result is the SeaHash of exactly these bytes.
#[verifier::external_body]
fn seahash_bytes(bytes: &[u8]) -> (h: u64)
    ensures
        h == seahash_of(bytes@),
{
    seahash::hash(bytes)
}

/// The bits of a hash that identifiers keep.
pub const HASH_MASK: u64 = 0x00FF_FFFF_FFFF_FFFF;

/// The identifier of a byte string: its SeaHash cut to 56 bits.
pub open spec fn spec_hash_bytes(bytes: Seq<u8>) -> u64 {
    seahash_of(bytes) & HASH_MASK
}

/// The identifier of a text: that of its UTF-8 encoding.
pub open spec fn spec_hash_chars(chars: Seq<char>) -> u64 {
    spec_hash_bytes(vstd::utf8::encode_utf8(chars))
}

/// An identifier never uses the top byte.
pub proof fn lemma_hash_fits_56_bits(bytes: Seq<u8>)
    ensures
        spec_hash_bytes(bytes) <= HASH_MASK,
{
    let h = seahash_of(bytes);
    assert(h & 0x00FF_FFFF_FFFF_FFFFu64 <= 0x00FF_FFFF_FFFF_FFFFu64) by (bit_vector);
}

/// Hashes a byte buffer to a 56-bit identifier.
pub fn hash_bytes(input: &Vec<u8>) -> (h: u64)
    ensures
        h == spec_hash_bytes(input@),
        h <= HASH_MASK,
{
    proof {
        lemma_hash_fits_56_bits(input@);
    }
    seahash_bytes(input.as_slice()) & HASH_MASK
}

/// Hashes a text to a 56-bit identifier.
pub fn hash_str(input: &str) -> (h: u64)
    ensures
        h == spec_hash_chars(input@),
        h <= HASH_MASK,
{
    proof {
        lemma_hash_fits_56_bits(input.spec_bytes());
    }
    seahash_bytes(input.as_bytes()) & HASH_MASK
}

/// The syllables that stand for the values of a byte, three letters each,
/// one after another in the order of the values.
pub open spec fn syllables() -> Seq<char> {
    "nilamaineskaphagelartonasasistauspenustumnadoconloomaneerliniumacksomlueirdavodoggerterniabonnalinapetcatingliekenfeeolaoldradmetcutazycupotadecdeleltietdonbleearrtheaswareigteeeleemmenequatstfanfiffilfinfisfivfloforfoofoufotfoxfrefrifrugeegiaglufolgrehamhapharhawhelhighothydidaillindiniinkiwaanditejerjigjohjululykanketkilkinkitlaclaklemardlimliolitlonloulowmagnesmaigamarcmarmaomasmaymexmicmikrilminmirmismiomobmocechmoetanoonainmupsicnebunenetnevnineennitnornovnutoctohiokloneoragesoreoscoveoxypapparpeypippizplupotpripurqueuqiquiredrivrobroirugsadsalsatsepseveveshasiesinsiksixsitskysocsodsolsottirkersprstastemammerswetabtagseenistexthithetimtritweenttwouncessuniuravegvenvervicvidviovirwasestwhihitiamwinhiswisolfwyorayankyelzebulufixgryholjuplampasromsnetenuta"@
}

/// The text of the syllables.
fn syllable_text() -> (text: &'static str)
    ensures
        text@ == syllables(),
        text@.len() == 768,
{
    proof {
        reveal_strlit("nilamaineskaphagelartonasasistauspenustumnadoconloomaneerliniumacksomlueirdavodoggerterniabonnalinapetcatingliekenfeeolaoldradmetcutazycupotadecdeleltietdonbleearrtheaswareigteeeleemmenequatstfanfiffilfinfisfivfloforfoofoufotfoxfrefrifrugeegiaglufolgrehamhapharhawhelhighothydidaillindiniinkiwaanditejerjigjohjululykanketkilkinkitlaclaklemardlimliolitlonloulowmagnesmaigamarcmarmaomasmaymexmicmikrilminmirmismiomobmocechmoetanoonainmupsicnebunenetnevnineennitnornovnutoctohiokloneoragesoreoscoveoxypapparpeypippizplupotpripurqueuqiquiredrivrobroirugsadsalsatsepseveveshasiesinsiksixsitskysocsodsolsottirkersprstastemammerswetabtagseenistexthithetimtritweenttwouncessuniuravegvenvervicvidviovirwasestwhihitiamwinhiswisolfwyorayankyelzebulufixgryholjuplampasromsnetenuta");
    }
    "nilamaineskaphagelartonasasistauspenustumnadoconloomaneerliniumacksomlueirdavodoggerterniabonnalinapetcatingliekenfeeolaoldradmetcutazycupotadecdeleltietdonbleearrtheaswareigteeeleemmenequatstfanfiffilfinfisfivfloforfoofoufotfoxfrefrifrugeegiaglufolgrehamhapharhawhelhighothydidaillindiniinkiwaanditejerjigjohjululykanketkilkinkitlaclaklemardlimliolitlonloulowmagnesmaigamarcmarmaomasmaymexmicmikrilminmirmismiomobmocechmoetanoonainmupsicnebunenetnevnineennitnornovnutoctohiokloneoragesoreoscoveoxypapparpeypippizplupotpripurqueuqiquiredrivrobroirugsadsalsatsepseveveshasiesinsiksixsitskysocsodsolsottirkersprstastemammerswetabtagseenistexthithetimtritweenttwouncessuniuravegvenvervicvidviovirwasestwhihitiamwinhiswisolfwyorayankyelzebulufixgryholjuplampasromsnetenuta"
}

/// The syllable that stands for a byte.
pub open spec fn syllable(byte: u8) -> Seq<char> {
    syllables().subrange(3 * byte, 3 * byte + 3)
}

/// A hash as people read it: the syllables of its second, fourth, sixth and
/// eighth byte, counted from the highest, with hyphens between them.
pub open spec fn humanized(hash: u64) -> Seq<char> {
    syllable((hash >> 48) as u8) + "-"@ + syllable((hash >> 32) as u8) + "-"@ + syllable(
        (hash >> 16) as u8,
    ) + "-"@ + syllable(hash as u8)
}

/// Writes a hash as four syllables, for people to read.
pub fn humanize(hash: &u64) -> (text: String)
    ensures
        text@ == humanized(*hash),
{
    let words: &'static str = syllable_text();
    let second: usize = ((*hash >> 48) as u8) as usize;
    let fourth: usize = ((*hash >> 32) as u8) as usize;
    let sixth: usize = ((*hash >> 16) as u8) as usize;
    let eighth: usize = (*hash as u8) as usize;
    let mut text = String::new();
    text.append(words.substring_char(3 * second, 3 * second + 3));
    text.append("-");
    text.append(words.substring_char(3 * fourth, 3 * fourth + 3));
    text.append("-");
    text.append(words.substring_char(3 * sixth, 3 * sixth + 3));
    text.append("-");
    text.append(words.substring_char(3 * eighth, 3 * eighth + 3));
    text
}

} // verus!

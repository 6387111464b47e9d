//! The values that flow between indexers, the polling engine and the store.

use crate::hexcodec::{
    decode_32, encode_prefixed, hex_decode_exact, hex_encode, leading_markers, lower_hex_digit,
    prefixed_hex, trim_0x, HexError,
};
use crate::ordering::{lex_order, lex_rank, Rank};
use crate::text::{decimal_digits, strip_0x_markers, u64_to_decimal, without_0x_markers};
use vstd::array::*;
use vstd::prelude::*;
use vstd::slice::*;
use vstd::std_specs::cmp::PartialEqSpecImpl;
use vstd::std_specs::convert::TryFromSpecImpl;
use vstd::string::*;

verus! {

/// Whether two byte strings hold the same bytes.
pub fn bytes_eq(a: &[u8], b: &[u8]) -> (same: bool)
    ensures
        same == (a@ == b@),
{
    if a.len() != b.len() {
        return false;
    }
    let mut i: usize = 0;
    while i < a.len()
        invariant
            i <= a@.len(),
            a@.len() == b@.len(),
            forall|j: int| 0 <= j < i ==> a@[j] == b@[j],
        decreases a@.len() - i,
    {
        if a[i] != b[i] {
            return false;
        }
        i = i + 1;
    }
    assert(a@ =~= b@);
    true
}

/// A fresh vector holding the bytes of `a`.
pub fn copy_bytes(a: &[u8]) -> (v: Vec<u8>)
    ensures
        v@ == a@,
{
    slice_to_vec(a)
}

/// A 32-byte value: a proof of indexing or a block hash.
#[derive(Copy, Clone, Debug, Eq, Hash)]
pub struct Bytes32(pub [u8; 32]);

impl View for Bytes32 {
    type V = Seq<u8>;

    open spec fn view(&self) -> Seq<u8> {
        self.0@
    }
}

impl PartialEq for Bytes32 {
    fn eq(&self, other: &Self) -> (same: bool) {
        let same = bytes_eq(self.0.as_slice(), other.0.as_slice());
        proof {
            Bytes32::lemma_equal_by_bytes(*self, *other);
        }
        same
    }
}

impl PartialEqSpecImpl for Bytes32 {
    open spec fn obeys_eq_spec() -> bool {
        true
    }

    open spec fn eq_spec(&self, other: &Self) -> bool {
        *self == *other
    }
}

/// Why a text or a byte string is no 32-byte value.
#[derive(Debug, Clone, Copy, PartialEq, Eq)]
pub enum Bytes32Error {
    /// The digits are malformed or do not make 32 bytes.
    Hex(HexError),
    /// The byte string has this length instead of 32.
    WrongLength(usize),
}

impl Bytes32 {
    /// Two values are the same exactly when their bytes are.
    pub proof fn lemma_equal_by_bytes(a: Bytes32, b: Bytes32)
        ensures
            (a@ == b@) <==> (a == b),
            a@.len() == 32,
    {
        broadcast use group_array_axioms;

        if a@ == b@ {
            assert(a.0 =~= b.0);
        }
    }

    /// A 32-byte value is the one that its bytes name.
    pub proof fn lemma_bytes32_of(value: Bytes32)
        ensures
            bytes32_of(value@) == value,
    {
        let chosen = bytes32_of(value@);
        Bytes32::lemma_equal_by_bytes(chosen, value);
    }

    /// Reads hexadecimal text, with or without leading `0x` markers.
    ///
    /// Succeeds exactly when what follows the markers is 64 hexadecimal
    /// digits; the error says what was wrong with them.
    pub fn try_from_str(s: &str) -> (res: Result<Bytes32, Bytes32Error>)
        ensures
            match hex_decode_exact(trim_0x(s.spec_bytes()), 32) {
                Ok(bytes) => res matches Ok(value) && value@ == bytes,
                Err(e) => res == Err::<Bytes32, Bytes32Error>(Bytes32Error::Hex(e)),
            },
    {
        let text = s.as_bytes();
        let start = leading_markers(text);
        let digits = slice_subrange(text, start, text.len());
        assert(digits@ =~= text@.skip(start as int));
        match decode_32(digits) {
            Ok(a) => Ok(Bytes32(a)),
            Err(e) => Err(Bytes32Error::Hex(e)),
        }
    }

    /// Takes the bytes of `v`, which must be 32 in number.
    pub fn try_from_vec(v: Vec<u8>) -> (res: Result<Bytes32, Bytes32Error>)
        ensures
            v@.len() == 32 ==> (res matches Ok(value) && value@ == v@),
            v@.len() != 32 ==> res == Err::<Bytes32, Bytes32Error>(
                Bytes32Error::WrongLength(v.len()),
            ),
    {
        Bytes32::try_from_slice(v.as_slice())
    }

    /// Takes the bytes of `v`, which must be 32 in number.
    pub fn try_from_slice(v: &[u8]) -> (res: Result<Bytes32, Bytes32Error>)
        ensures
            v@.len() == 32 ==> (res matches Ok(value) && value@ == v@),
            v@.len() != 32 ==> res == Err::<Bytes32, Bytes32Error>(
                Bytes32Error::WrongLength(v.len()),
            ),
    {
        if v.len() != 32 {
            return Err(Bytes32Error::WrongLength(v.len()));
        }
        let mut bytes = [0u8;32];
        let mut i: usize = 0;
        while i < 32
            invariant
                i <= 32,
                v@.len() == 32,
                bytes@.len() == 32,
                forall|j: int| 0 <= j < i ==> bytes@[j] == v@[j],
            decreases 32 - i,
        {
            bytes[i] = v[i];
            i = i + 1;
        }
        assert(bytes@ =~= v@);
        Ok(Bytes32(bytes))
    }

    /// The bytes as a vector.
    pub fn to_vec(&self) -> (v: Vec<u8>)
        ensures
            v@ == self@,
    {
        copy_bytes(self.0.as_slice())
    }

    /// The text form: `0x` and 64 lowercase hexadecimal digits.
    pub fn to_string(&self) -> (text: String)
        ensures
            text@ == prefixed_hex(self@),
    {
        encode_prefixed(self.0.as_slice())
    }
}

/// The 32-byte value with the bytes `bytes`.
pub open spec fn bytes32_of(bytes: Seq<u8>) -> Bytes32 {
    choose|value: Bytes32| value@ == bytes
}

/// What reading a 32-byte value from hexadecimal text comes to.
pub open spec fn bytes32_of_text(text: Seq<u8>) -> Result<Bytes32, Bytes32Error> {
    match hex_decode_exact(trim_0x(text), 32) {
        Ok(bytes) => Ok(bytes32_of(bytes)),
        Err(e) => Err(Bytes32Error::Hex(e)),
    }
}

/// What taking a 32-byte value from a byte string comes to.
pub open spec fn bytes32_of_bytes(bytes: Seq<u8>) -> Result<Bytes32, Bytes32Error> {
    if bytes.len() == 32 {
        Ok(bytes32_of(bytes))
    } else {
        Err(Bytes32Error::WrongLength(bytes.len() as usize))
    }
}

impl TryFrom<&str> for Bytes32 {
    type Error = Bytes32Error;

    fn try_from(s: &str) -> (res: Result<Self, Self::Error>) {
        let res = Bytes32::try_from_str(s);
        proof {
            if let Ok(value) = res {
                Bytes32::lemma_bytes32_of(value);
            }
        }
        res
    }
}

impl TryFromSpecImpl<&str> for Bytes32 {
    open spec fn obeys_try_from_spec() -> bool {
        true
    }

    open spec fn try_from_spec(s: &str) -> Result<Self, Self::Error> {
        bytes32_of_text(s.spec_bytes())
    }
}

impl TryFrom<Vec<u8>> for Bytes32 {
    type Error = Bytes32Error;

    fn try_from(v: Vec<u8>) -> (res: Result<Self, Self::Error>) {
        let res = Bytes32::try_from_vec(v);
        proof {
            if let Ok(value) = res {
                Bytes32::lemma_bytes32_of(value);
            }
        }
        res
    }
}

impl TryFromSpecImpl<Vec<u8>> for Bytes32 {
    open spec fn obeys_try_from_spec() -> bool {
        true
    }

    open spec fn try_from_spec(v: Vec<u8>) -> Result<Self, Self::Error> {
        bytes32_of_bytes(v@)
    }
}

/// A block of a chain: its height and, where known, its hash.
#[derive(Debug, Copy, Clone, Eq, Hash)]
pub struct BlockPointer {
    pub number: u64,
    pub hash: Option<Bytes32>,
}

impl PartialEq for BlockPointer {
    fn eq(&self, other: &Self) -> (same: bool) {
        if self.number != other.number {
            return false;
        }
        match (self.hash, other.hash) {
            (Some(a), Some(b)) => a == b,
            (None, None) => true,
            _ => false,
        }
    }
}

impl PartialEqSpecImpl for BlockPointer {
    open spec fn obeys_eq_spec() -> bool {
        true
    }

    open spec fn eq_spec(&self, other: &Self) -> bool {
        *self == *other
    }
}

/// The text form of a block: `#`, the number in decimal and, in round
/// brackets, the hash in `0x`-prefixed hexadecimal or the words `no hash`.
pub open spec fn block_text(block: BlockPointer) -> Seq<char> {
    "#"@ + decimal_digits(block.number as nat) + " ("@ + (match block.hash {
        Some(hash) => prefixed_hex(hash@),
        None => "no hash"@,
    }) + ")"@
}

impl BlockPointer {
    /// The text form of the block, for messages.
    pub fn to_string(&self) -> (text: String)
        ensures
            text@ == block_text(*self),
    {
        let mut text = String::from_str("#");
        let number = u64_to_decimal(self.number);
        text.append(number.as_str());
        text.append(" (");
        match self.hash {
            Some(hash) => {
                let digits = hash.to_string();
                text.append(digits.as_str());
            },
            None => {
                text.append("no hash");
            },
        }
        text.append(")");
        text
    }
}

/// A subgraph deployment, named by its IPFS content identifier.
#[derive(Debug, Eq, Hash)]
pub struct SubgraphDeployment(pub String);

impl View for SubgraphDeployment {
    type V = Seq<char>;

    open spec fn view(&self) -> Seq<char> {
        self.0@
    }
}

impl PartialEq for SubgraphDeployment {
    fn eq(&self, other: &Self) -> (same: bool) {
        self.0 == other.0
    }
}

impl PartialEqSpecImpl for SubgraphDeployment {
    open spec fn obeys_eq_spec() -> bool {
        true
    }

    open spec fn eq_spec(&self, other: &Self) -> bool {
        self@ == other@
    }
}

impl Clone for SubgraphDeployment {
    fn clone(&self) -> (copy: Self)
        ensures
            copy@ == self@,
    {
        SubgraphDeployment(self.0.clone())
    }
}

impl SubgraphDeployment {
    /// The content identifier as text.
    pub fn as_str(&self) -> (s: &str)
        ensures
            s@ == self@,
    {
        self.0.as_str()
    }
}

/// What identifies an indexer: its address, and a name for people to read.
pub trait IndexerId {
    /// The address bytes that the identity rests on.
    spec fn address_bytes(&self) -> Seq<u8>;

    /// The name, where the indexer has one.
    spec fn name_text(&self) -> Option<Seq<char>>;

    fn address(&self) -> (a: &[u8])
        ensures
            a@ == self.address_bytes(),
    ;

    fn name(&self) -> (n: Option<&String>)
        ensures
            n is Some == self.name_text() is Some,
            n matches Some(s) ==> Some(s@) == self.name_text(),
    ;

    /// The address as `0x`-prefixed lowercase hexadecimal text.
    fn address_string(&self) -> (text: String)
        ensures
            text@ == prefixed_hex(self.address_bytes()),
    ;
}

/// One indexer of the fleet. Two indexers are the same when their address
/// bytes are; the name plays no part in that.
#[derive(Debug)]
pub struct Indexer {
    pub address: Vec<u8>,
    pub name: Option<String>,
}

/// What an indexer is hashed and looked up by: its address bytes. Two
/// indexers have equal keys exactly when they are the same indexer, so a
/// hash map or set of indexers is keyed by this.
#[derive(Debug, Clone, PartialEq, Eq, Hash)]
pub struct IndexerKey(pub Vec<u8>);

/// An indexer as contracts see it.
pub struct IndexerView {
    pub address: Seq<u8>,
    pub name: Option<Seq<char>>,
}

impl View for Indexer {
    type V = IndexerView;

    open spec fn view(&self) -> IndexerView {
        IndexerView {
            address: self.address@,
            name: match self.name {
                Some(n) => Some(n@),
                None => None,
            },
        }
    }
}

impl IndexerId for Indexer {
    open spec fn address_bytes(&self) -> Seq<u8> {
        self@.address
    }

    open spec fn name_text(&self) -> Option<Seq<char>> {
        self@.name
    }

    fn address(&self) -> (a: &[u8]) {
        self.address.as_slice()
    }

    fn name(&self) -> (n: Option<&String>) {
        self.name.as_ref()
    }

    fn address_string(&self) -> (text: String) {
        encode_prefixed(self.address.as_slice())
    }
}

impl Clone for Indexer {
    fn clone(&self) -> (copy: Self)
        ensures
            copy@ == self@,
    {
        let name = match &self.name {
            Some(n) => Some(n.clone()),
            None => None,
        };
        Indexer { address: copy_bytes(self.address.as_slice()), name }
    }
}

impl PartialEq for Indexer {
    fn eq(&self, other: &Self) -> (same: bool) {
        self.same_as(other)
    }
}

impl PartialEqSpecImpl for Indexer {
    open spec fn obeys_eq_spec() -> bool {
        true
    }

    open spec fn eq_spec(&self, other: &Self) -> bool {
        self@.address == other@.address
    }
}

/// What names an indexer: its address in `0x`-prefixed hexadecimal where
/// it has one, and else its name, or nothing where it has neither.
pub open spec fn indexer_id_text(indexer: IndexerView) -> Seq<char> {
    if indexer.address.len() > 0 {
        prefixed_hex(indexer.address)
    } else {
        match indexer.name {
            Some(name) => name,
            None => Seq::empty(),
        }
    }
}

/// What names an indexer in flat records: its identifier without leading
/// `0x` markers.
pub open spec fn indexer_record_text(indexer: IndexerView) -> Seq<char> {
    without_0x_markers(indexer_id_text(indexer))
}

/// The hexadecimal text of bytes never begins with a `0x` marker.
pub proof fn lemma_hex_has_no_marker(bytes: Seq<u8>)
    ensures
        without_0x_markers(hex_encode(bytes)) == hex_encode(bytes),
        without_0x_markers(prefixed_hex(bytes)) == hex_encode(bytes),
{
    let digits = hex_encode(bytes);
    if digits.len() >= 2 {
        let n = bytes[0] as int % 16;
        assert(digits[1] == lower_hex_digit(n));
        assert(0 <= n < 16);
        assert(digits[1] != 'x');
    }
    let prefixed = prefixed_hex(bytes);
    assert(prefixed.len() >= 2 && prefixed[0] == '0' && prefixed[1] == 'x');
    assert(prefixed.skip(2) =~= digits);
    assert(without_0x_markers(prefixed) == without_0x_markers(prefixed.skip(2)));
}

/// The record text of an indexer with an address is the hexadecimal text
/// of the address, without a prefix; that of one without is its name, less
/// any leading `0x` markers.
pub proof fn lemma_indexer_record_text(indexer: IndexerView)
    ensures
        indexer.address.len() > 0 ==> indexer_record_text(indexer) == hex_encode(indexer.address),
        indexer.address.len() == 0 && indexer.name is Some ==> indexer_record_text(indexer)
            == without_0x_markers(indexer.name.unwrap()),
{
    lemma_hex_has_no_marker(indexer.address);
}

impl Indexer {
    /// What names the indexer in flat records: its identifier without
    /// leading `0x` markers.
    pub fn record_text(&self) -> (text: String)
        ensures
            text@ == indexer_record_text(self@),
    {
        let id = self.id();
        strip_0x_markers(id.as_str())
    }

    /// What names the indexer in messages and counters.
    pub fn id(&self) -> (text: String)
        ensures
            text@ == indexer_id_text(self@),
    {
        if self.address.len() > 0 {
            encode_prefixed(self.address.as_slice())
        } else {
            match &self.name {
                Some(name) => name.clone(),
                None => String::new(),
            }
        }
    }

    /// How this indexer stands to `other` in the order of indexers: the
    /// dictionary order of their addresses.
    pub fn order(&self, other: &Indexer) -> (rank: Rank)
        ensures
            rank == lex_rank(self@.address, other@.address),
    {
        lex_order(self.address.as_slice(), other.address.as_slice())
    }

    /// The key to hash the indexer by: its address bytes.
    pub fn key(&self) -> (key: IndexerKey)
        ensures
            key.0@ == self@.address,
    {
        IndexerKey(copy_bytes(self.address.as_slice()))
    }

    /// An indexer with the given address and name.
    pub fn new(address: Vec<u8>, name: Option<String>) -> (indexer: Indexer)
        ensures
            indexer.address == address,
            indexer.name == name,
    {
        Indexer { address, name }
    }

    /// Whether `other` is the same indexer: whether the addresses agree.
    pub fn same_as(&self, other: &Indexer) -> (same: bool)
        ensures
            same == (self@.address == other@.address),
    {
        bytes_eq(self.address.as_slice(), other.address.as_slice())
    }
}

/// What one indexer reports about one deployment.
#[derive(Debug)]
pub struct IndexingStatus {
    pub indexer: Indexer,
    pub deployment: SubgraphDeployment,
    pub network: String,
    pub latest_block: BlockPointer,
    pub earliest_block_num: u64,
}

/// An indexing status as contracts see it.
pub struct IndexingStatusView {
    pub indexer: IndexerView,
    pub deployment: Seq<char>,
    pub network: Seq<char>,
    pub latest_block: BlockPointer,
    pub earliest_block_num: u64,
}

impl View for IndexingStatus {
    type V = IndexingStatusView;

    open spec fn view(&self) -> IndexingStatusView {
        IndexingStatusView {
            indexer: self.indexer@,
            deployment: self.deployment@,
            network: self.network@,
            latest_block: self.latest_block,
            earliest_block_num: self.earliest_block_num,
        }
    }
}

impl IndexingStatusView {
    /// Equality of statuses: same indexer, deployment, network and latest
    /// block. The earliest block plays no part.
    pub open spec fn same_status(self, other: IndexingStatusView) -> bool {
        &&& self.indexer.address == other.indexer.address
        &&& self.deployment == other.deployment
        &&& self.network == other.network
        &&& self.latest_block == other.latest_block
    }
}

impl Clone for IndexingStatus {
    fn clone(&self) -> (copy: Self)
        ensures
            copy@ == self@,
    {
        IndexingStatus {
            indexer: self.indexer.clone(),
            deployment: self.deployment.clone(),
            network: self.network.clone(),
            latest_block: self.latest_block,
            earliest_block_num: self.earliest_block_num,
        }
    }
}

impl PartialEq for IndexingStatus {
    fn eq(&self, other: &Self) -> (same: bool) {
        self.indexer.same_as(&other.indexer) && self.deployment == other.deployment
            && self.network == other.network && self.latest_block == other.latest_block
    }
}

impl PartialEqSpecImpl for IndexingStatus {
    open spec fn obeys_eq_spec() -> bool {
        true
    }

    open spec fn eq_spec(&self, other: &Self) -> bool {
        self@.same_status(other@)
    }
}

/// A proof of indexing: the digest that `indexer` computed for `deployment`
/// at `block`.
#[derive(Debug)]
pub struct ProofOfIndexing {
    pub indexer: Indexer,
    pub deployment: SubgraphDeployment,
    pub block: BlockPointer,
    pub proof_of_indexing: Bytes32,
}

/// A proof of indexing as contracts see it.
pub struct PoiView {
    pub indexer: IndexerView,
    pub deployment: Seq<char>,
    pub block: BlockPointer,
    pub proof_of_indexing: Bytes32,
}

impl View for ProofOfIndexing {
    type V = PoiView;

    open spec fn view(&self) -> PoiView {
        PoiView {
            indexer: self.indexer@,
            deployment: self.deployment@,
            block: self.block,
            proof_of_indexing: self.proof_of_indexing,
        }
    }
}

impl PoiView {
    /// Equality of proofs of indexing: same indexer, deployment, block and digest.
    pub open spec fn same_poi(self, other: PoiView) -> bool {
        &&& self.same_coordinates(other)
        &&& self.proof_of_indexing == other.proof_of_indexing
    }

    /// Whether two proofs of indexing come from the same indexer for the
    /// same deployment at the same block.
    pub open spec fn same_coordinates(self, other: PoiView) -> bool {
        &&& self.indexer.address == other.indexer.address
        &&& self.deployment == other.deployment
        &&& self.block == other.block
    }
}

impl Clone for ProofOfIndexing {
    fn clone(&self) -> (copy: Self)
        ensures
            copy@ == self@,
    {
        ProofOfIndexing {
            indexer: self.indexer.clone(),
            deployment: self.deployment.clone(),
            block: self.block,
            proof_of_indexing: self.proof_of_indexing,
        }
    }
}

impl PartialEq for ProofOfIndexing {
    fn eq(&self, other: &Self) -> (same: bool) {
        self.indexer.same_as(&other.indexer) && self.deployment == other.deployment && self.block
            == other.block && self.proof_of_indexing == other.proof_of_indexing
    }
}

impl PartialEqSpecImpl for ProofOfIndexing {
    open spec fn obeys_eq_spec() -> bool {
        true
    }

    open spec fn eq_spec(&self, other: &Self) -> bool {
        self@.same_poi(other@)
    }
}

/// What the store needs to know of a proof of indexing in order to write it.
pub trait WritablePoi {
    type IndexerId: IndexerId;

    /// The proof of indexing that the value stands for.
    spec fn poi_view(&self) -> PoiView;

    fn deployment_cid(&self) -> (cid: &str)
        ensures
            cid@ == self.poi_view().deployment,
    ;

    fn indexer_id(&self) -> (id: Self::IndexerId)
        ensures
            id.address_bytes() == self.poi_view().indexer.address,
            id.name_text() == self.poi_view().indexer.name,
    ;

    fn block(&self) -> (block: BlockPointer)
        ensures
            block == self.poi_view().block,
    ;

    fn proof_of_indexing(&self) -> (digest: &[u8])
        ensures
            digest@ == self.poi_view().proof_of_indexing@,
    ;
}

impl WritablePoi for ProofOfIndexing {
    type IndexerId = Indexer;

    open spec fn poi_view(&self) -> PoiView {
        self@
    }

    fn deployment_cid(&self) -> (cid: &str) {
        self.deployment.as_str()
    }

    fn indexer_id(&self) -> (id: Indexer) {
        self.indexer.clone()
    }

    fn block(&self) -> (block: BlockPointer) {
        self.block
    }

    fn proof_of_indexing(&self) -> (digest: &[u8]) {
        self.proof_of_indexing.0.as_slice()
    }
}

/// The proof of indexing that a writable value stands for, as a value of
/// its own. Every writable value that keeps to what [`WritablePoi`] asks of
/// it has one.
pub fn proof_of_indexing_of<P: WritablePoi>(poi: &P) -> (res: Option<ProofOfIndexing>)
    ensures
        res matches Some(p) && p@ == poi.poi_view(),
{
    let id = poi.indexer_id();
    let name = match id.name() {
        Some(n) => Some(n.clone()),
        None => None,
    };
    let indexer = Indexer { address: copy_bytes(id.address()), name };
    let digest = poi.proof_of_indexing();
    proof {
        Bytes32::lemma_equal_by_bytes(
            poi.poi_view().proof_of_indexing,
            poi.poi_view().proof_of_indexing,
        );
    }
    let proof_of_indexing = match Bytes32::try_from_slice(digest) {
        Ok(value) => value,
        Err(_) => {
            return None;
        },
    };
    proof {
        Bytes32::lemma_equal_by_bytes(proof_of_indexing, poi.poi_view().proof_of_indexing);
    }
    Some(
        ProofOfIndexing {
            indexer,
            deployment: SubgraphDeployment(String::from_str(poi.deployment_cid())),
            block: poi.block(),
            proof_of_indexing,
        },
    )
}

/// The first block at which two indexers disagree, with both digests.
#[derive(Debug, Clone, Copy, Eq)]
pub struct DivergingBlock {
    pub block: BlockPointer,
    pub proof_of_indexing1: Bytes32,
    pub proof_of_indexing2: Bytes32,
}

impl PartialEq for DivergingBlock {
    fn eq(&self, other: &Self) -> (same: bool) {
        self.block == other.block && self.proof_of_indexing1 == other.proof_of_indexing1
            && self.proof_of_indexing2 == other.proof_of_indexing2
    }
}

impl PartialEqSpecImpl for DivergingBlock {
    open spec fn obeys_eq_spec() -> bool {
        true
    }

    open spec fn eq_spec(&self, other: &Self) -> bool {
        *self == *other
    }
}

impl DivergingBlock {
    /// The two digests of a diverging block differ.
    pub open spec fn wf(self) -> bool {
        self.proof_of_indexing1 != self.proof_of_indexing2
    }

    /// The diverging block for two digests at `block`; `None` when the
    /// digests agree, since then nothing diverges there.
    pub fn new(block: BlockPointer, poi1: Bytes32, poi2: Bytes32) -> (res: Option<DivergingBlock>)
        ensures
            poi1 == poi2 ==> res is None,
            poi1 != poi2 ==> res == Some(
                (DivergingBlock { block, proof_of_indexing1: poi1, proof_of_indexing2: poi2 }),
            ),
            res matches Some(d) ==> d.wf(),
    {
        if poi1 == poi2 {
            None
        } else {
            Some(DivergingBlock { block, proof_of_indexing1: poi1, proof_of_indexing2: poi2 })
        }
    }
}

/// The outcome of comparing two proofs of indexing of one deployment.
#[derive(Debug)]
pub struct POICrossCheckReport {
    pub poi1: ProofOfIndexing,
    pub poi2: ProofOfIndexing,
    pub diverging_block: Option<DivergingBlock>,
}

/// A request for the proof of indexing of one deployment at one block.
#[derive(Debug)]
pub struct PoiRequest {
    pub deployment: SubgraphDeployment,
    pub block_number: u64,
}

/// A request as contracts see it.
pub struct PoiRequestView {
    pub deployment: Seq<char>,
    pub block_number: u64,
}

impl View for PoiRequest {
    type V = PoiRequestView;

    open spec fn view(&self) -> PoiRequestView {
        PoiRequestView { deployment: self.deployment@, block_number: self.block_number }
    }
}

impl Clone for PoiRequest {
    fn clone(&self) -> (copy: Self)
        ensures
            copy@ == self@,
    {
        PoiRequest { deployment: self.deployment.clone(), block_number: self.block_number }
    }
}

/// One cached Ethereum call that an indexer holds for a block.
#[derive(Debug)]
pub struct CachedEthereumCall {
    pub id_hash: Vec<u8>,
    pub return_value: Vec<u8>,
    pub contract_address: Vec<u8>,
}

} // verus!

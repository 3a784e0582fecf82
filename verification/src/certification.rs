//! The certification tree: a map from the registry's well-known keys to the
//! hash of what stands under them, kept in a Merkle tree whose root hash
//! certifies all of it.
//!
//! | key                   | content                                         |
//! |-----------------------|-------------------------------------------------|
//! | `/name`               | the name, in UTF-8                              |
//! | `/symbol`             | the symbol, in UTF-8                            |
//! | `/total_supply`       | the number of tokens in circulation, in decimal |
//! | `/history_total`      | the number of transactions, in decimal          |
//! | `/token/<id>`         | the token's owner and last transaction          |
//! | `/history/<block id>` | the records of a closed block                   |

use ic_certified_map::RbTree;
use sha2::Digest;
use vstd::prelude::*;
use crate::bytes::{le32, push_le32};
use crate::identity::Subaccount;
use crate::model::{in_circulation, threshold, FlushView, LedgerView};
use crate::state::{outbox_view, Flush, State};
use crate::types::{TokenId, TokenView};

verus! {

/// The tree of `ic_certified_map`: a map from byte strings to values, in
/// which every node holds the hash of the tree below it.
#[verifier::external_type_specification]
#[verifier::external_body]
#[verifier::reject_recursive_types(K)]
#[verifier::reject_recursive_types(V)]
pub struct ExRbTree<K, V>(RbTree<K, V>);

/// A SHA-256 hash.
pub type HashBytes = [u8; 32];

/// The tree in which the registry keeps its hashes.
pub type Tree = RbTree<Vec<u8>, HashBytes>;

/// What a tree holds: its keys, each with the hash under it.
pub uninterp spec fn tree_entries(tree: Tree) -> Map<Seq<u8>, Seq<u8>>;

/// The root hash of a tree.
pub uninterp spec fn tree_root(tree: Tree) -> Seq<u8>;

/// The SHA-256 hash of `data`.
pub uninterp spec fn sha256_of(data: Seq<u8>) -> Seq<u8>;

/// The map without keys.
pub open spec fn no_entries() -> Map<Seq<u8>, Seq<u8>> {
    Map::empty()
}

/// Calls `RbTree::new`: the tree holds nothing.
#[verifier::external_body]
fn tree_new() -> (made: Tree)
    ensures
        tree_entries(made) == no_entries(),
{
    RbTree::new()
}

/// Calls `RbTree::insert`: the key holds the new value, whether or not it held
/// one before, and every other key holds what it held.
#[verifier::external_body]
fn tree_insert(tree: &mut Tree, key: Vec<u8>, value: HashBytes)
    ensures
        tree_entries(*final(tree)) == tree_entries(*old(tree)).insert(key@, value@),
{
    tree.insert(key, value)
}

/// Calls `RbTree::get`: the value under the key, if the tree holds the key.
#[verifier::external_body]
fn tree_get(tree: &Tree, key: &Vec<u8>) -> (value: Option<HashBytes>)
    ensures
        tree_entries(*tree).contains_key(key@) ==> value is Some && value->Some_0@ == tree_entries(
            *tree,
        )[key@],
        !tree_entries(*tree).contains_key(key@) ==> value is None,
{
    tree.get(key.as_slice()).copied()
}

/// Calls `AsHashTree::root_hash` on the tree. The result is taken on trust
/// under the name `tree_root`.
#[verifier::external_body]
fn tree_root_hash(tree: &Tree) -> (hash: HashBytes)
    ensures
        hash@ == tree_root(*tree),
{
    ic_certified_map::AsHashTree::root_hash(tree)
}

/// Calls `sha2::Sha256::digest`. The result is taken on trust under the name
/// `sha256_of`.
#[verifier::external_body]
fn sha256(data: &Vec<u8>) -> (hash: HashBytes)
    ensures
        hash@ == sha256_of(data@),
{
    sha2::Sha256::digest(data.as_slice()).into()
}

/// Calls `ic_certified_map::labeled_hash`, which hashes, with SHA-256, one
/// byte for the length of the words `ic-hashtree-labeled`, the words, the
/// label and the hash given.
#[verifier::external_body]
fn labeled_hash(label: &Vec<u8>, content_hash: &HashBytes) -> (hash: HashBytes)
    ensures
        hash@ == sha256_of(labeled_domain() + label@ + content_hash@),
{
    ic_certified_map::labeled_hash(label.as_slice(), content_hash)
}

/// What opens the bytes that the hash of a labeled node is made of: 19, and
/// the 19 letters of `ic-hashtree-labeled`.
pub open spec fn labeled_domain() -> Seq<u8> {
    seq![
        19u8, 105u8, 99u8, 45u8, 104u8, 97u8, 115u8, 104u8, 116u8, 114u8, 101u8, 101u8, 45u8,
        108u8, 97u8, 98u8, 101u8, 108u8, 101u8, 100u8,
    ]
}

/// The label under which the host certifies the tree: `http_assets`.
pub open spec fn assets_label() -> Seq<u8> {
    seq![104u8, 116u8, 116u8, 112u8, 95u8, 97u8, 115u8, 115u8, 101u8, 116u8, 115u8]
}

/// `n` in decimal digits.
pub open spec fn decimal(n: nat) -> Seq<u8>
    decreases n,
{
    if n < 10 {
        seq![(48 + n) as u8]
    } else {
        decimal(n / 10).push((48 + n % 10) as u8)
    }
}

/// The key `/name`.
pub open spec fn name_key() -> Seq<u8> {
    seq![47u8, 110u8, 97u8, 109u8, 101u8]
}

/// The key `/symbol`.
pub open spec fn symbol_key() -> Seq<u8> {
    seq![47u8, 115u8, 121u8, 109u8, 98u8, 111u8, 108u8]
}

/// The key `/total_supply`.
pub open spec fn total_supply_key() -> Seq<u8> {
    seq![
        47u8, 116u8, 111u8, 116u8, 97u8, 108u8, 95u8, 115u8, 117u8, 112u8, 112u8, 108u8, 121u8,
    ]
}

/// The key `/history_total`.
pub open spec fn history_total_key() -> Seq<u8> {
    seq![
        47u8, 104u8, 105u8, 115u8, 116u8, 111u8, 114u8, 121u8, 95u8, 116u8, 111u8, 116u8, 97u8,
        108u8,
    ]
}

/// The key of a token: `/token/` and the token's id in decimal.
pub open spec fn token_key(id: TokenId) -> Seq<u8> {
    seq![47u8, 116u8, 111u8, 107u8, 101u8, 110u8, 47u8] + decimal(id as nat)
}

/// The key of a closed block: `/history/` and the block's id in decimal.
pub open spec fn history_key(block_id: nat) -> Seq<u8> {
    seq![47u8, 104u8, 105u8, 115u8, 116u8, 111u8, 114u8, 121u8, 47u8] + decimal(block_id)
}

/// What is certified of a token: the length of its owner's id, the id, the
/// 32 bytes of the subaccount, and the token's last transaction in four
/// bytes, least significant first.
pub open spec fn token_content(token: TokenView) -> Seq<u8> {
    seq![token.account.owner.len() as u8] + token.account.owner + token.account.subaccount + le32(
        token.tx_id,
    )
}

/// The id of the block whose records lie at `offset` in durable memory.
pub open spec fn block_at(offset: nat, block_size: nat) -> nat {
    offset / (78 * threshold(block_size))
}

/// The entries after the records of closed blocks were certified, each block
/// under its key.
pub open spec fn with_blocks(
    entries: Map<Seq<u8>, Seq<u8>>,
    closed: Seq<FlushView>,
    block_size: nat,
) -> Map<Seq<u8>, Seq<u8>>
    decreases closed.len(),
{
    if closed.len() == 0 {
        entries
    } else {
        with_blocks(entries, closed.drop_last(), block_size).insert(
            history_key(block_at(closed.last().offset, block_size)),
            sha256_of(closed.last().bytes),
        )
    }
}

/// The entries after a token was certified as the registry has it; the
/// entries themselves where the registry has no such token.
pub open spec fn with_token(entries: Map<Seq<u8>, Seq<u8>>, s: LedgerView, id: TokenId) -> Map<
    Seq<u8>,
    Seq<u8>,
> {
    if s.tokens.contains_key(id) {
        entries.insert(token_key(id), sha256_of(token_content(s.tokens[id])))
    } else {
        entries
    }
}

/// The entries after the tokens `ids` were certified, one after the other,
/// as the registry has them.
pub open spec fn with_tokens(entries: Map<Seq<u8>, Seq<u8>>, s: LedgerView, ids: Seq<TokenId>) -> Map<
    Seq<u8>,
    Seq<u8>,
>
    decreases ids.len(),
{
    if ids.len() == 0 {
        entries
    } else {
        with_token(with_tokens(entries, s, ids.drop_last()), s, ids.last())
    }
}

/// The entries after the registry's totals were certified.
pub open spec fn with_totals(entries: Map<Seq<u8>, Seq<u8>>, s: LedgerView) -> Map<
    Seq<u8>,
    Seq<u8>,
> {
    entries.insert(
        total_supply_key(),
        sha256_of(decimal(in_circulation(s).len())),
    ).insert(history_total_key(), sha256_of(decimal(s.tx_total)))
}

/// The entries after the registry's name and symbol were certified.
pub open spec fn with_names(entries: Map<Seq<u8>, Seq<u8>>, s: LedgerView) -> Map<
    Seq<u8>,
    Seq<u8>,
> {
    entries.insert(name_key(), sha256_of(vstd::utf8::encode_utf8(s.name))).insert(
        symbol_key(),
        sha256_of(vstd::utf8::encode_utf8(s.symbol)),
    )
}

/// `n` in decimal digits.
pub fn to_decimal(n: u64) -> (digits: Vec<u8>)
    ensures
        digits@ == decimal(n as nat),
    decreases n,
{
    if n < 10 {
        let mut digits: Vec<u8> = Vec::new();
        digits.push((48 + n) as u8);
        assert(digits@ =~= decimal(n as nat));
        digits
    } else {
        let mut digits = to_decimal(n / 10);
        digits.push((48 + n % 10) as u8);
        digits
    }
}

/// The certification tree.
pub struct CertTree {
    tree: Tree,
}

impl View for CertTree {
    type V = Map<Seq<u8>, Seq<u8>>;

    closed spec fn view(&self) -> Map<Seq<u8>, Seq<u8>> {
        tree_entries(self.tree)
    }
}

impl CertTree {
    /// The root hash of the tree.
    pub closed spec fn root(&self) -> Seq<u8> {
        tree_root(self.tree)
    }

    /// The tree that certifies nothing.
    pub fn new() -> (t: CertTree)
        ensures
            t@ == Map::<Seq<u8>, Seq<u8>>::empty(),
    {
        CertTree { tree: tree_new() }
    }

    /// Certifies `content` under `key`: the key holds the SHA-256 hash of the
    /// content, in place of what it held.
    pub fn certify(&mut self, key: Vec<u8>, content: &Vec<u8>)
        ensures
            final(self)@ == old(self)@.insert(key@, sha256_of(content@)),
    {
        let hash = sha256(content);
        tree_insert(&mut self.tree, key, hash);
    }

    /// The hash that is certified under `key`, if any is.
    pub fn lookup(&self, key: &Vec<u8>) -> (hash: Option<HashBytes>)
        ensures
            self@.contains_key(key@) ==> hash is Some && hash->Some_0@ == self@[key@],
            !self@.contains_key(key@) ==> hash is None,
    {
        tree_get(&self.tree, key)
    }

    /// The root hash of the tree.
    pub fn root_hash(&self) -> (hash: HashBytes)
        ensures
            hash@ == self.root(),
    {
        tree_root_hash(&self.tree)
    }

    /// What the host is to certify: the hash of the tree as the node
    /// labeled `http_assets`.
    pub fn certified_data(&self) -> (hash: HashBytes)
        ensures
            hash@ == sha256_of(labeled_domain() + assets_label() + self.root()),
    {
        let root = tree_root_hash(&self.tree);
        let mut label: Vec<u8> = Vec::new();
        label.push(104);
        label.push(116);
        label.push(116);
        label.push(112);
        label.push(95);
        label.push(97);
        label.push(115);
        label.push(115);
        label.push(101);
        label.push(116);
        label.push(115);
        assert(label@ =~= assets_label());
        labeled_hash(&label, &root)
    }

    /// The tree itself, for the host to make witnesses from.
    pub fn tree(&self) -> (tree: &Tree)
        ensures
            tree_entries(*tree) == self@,
            tree_root(*tree) == self.root(),
    {
        &self.tree
    }
}

/// The entries after a commit: the token that the operation touched, if it
/// touched one, is certified as the registry has it now, then the totals,
/// then the blocks that the commit closed.
pub open spec fn after_commit(
    entries: Map<Seq<u8>, Seq<u8>>,
    s: LedgerView,
    touched: Option<TokenId>,
    closed: Seq<FlushView>,
) -> Map<Seq<u8>, Seq<u8>> {
    let with_touched = match touched {
        Some(id) => with_token(entries, s, id),
        None => entries,
    };
    with_blocks(with_totals(with_touched, s), closed, s.block_size)
}

/// The bytes of `prefix`, followed by `n` in decimal.
fn numbered_key(prefix: Vec<u8>, n: u64) -> (key: Vec<u8>)
    ensures
        key@ == prefix@ + decimal(n as nat),
{
    let mut key = prefix;
    let digits = to_decimal(n);
    let count = digits.len();
    let mut i: usize = 0;
    while i < count
        invariant
            i <= count,
            count == digits@.len(),
            key@ == prefix@ + digits@.take(i as int),
        decreases count - i,
    {
        key.push(digits[i]);
        assert(key@ =~= prefix@ + digits@.take(i + 1));
        i += 1;
    }
    assert(digits@.take(count as int) =~= digits@);
    key
}

/// What is certified of `token`.
fn content_of(token: &crate::types::Token) -> (content: Vec<u8>)
    ensures
        content@ == token_content(token@),
{
    let mut content: Vec<u8> = Vec::new();
    let n = token.account.owner.len();
    content.push(n as u8);
    let mut i: usize = 0;
    while i < n
        invariant
            i <= n,
            n == token.account.owner@.len(),
            content@ == seq![n as u8] + token.account.owner@.take(i as int),
        decreases n - i,
    {
        content.push(token.account.owner.byte(i));
        assert(content@ =~= seq![n as u8] + token.account.owner@.take(i + 1));
        i += 1;
    }
    assert(token.account.owner@.take(n as int) =~= token.account.owner@);
    let subaccount = match token.account.subaccount {
        Some(s) => s,
        None => Subaccount::default_subaccount(),
    };
    let ghost head = content@;
    let mut j: usize = 0;
    while j < 32
        invariant
            j <= 32,
            content@ == head + subaccount@.take(j as int),
        decreases 32 - j,
    {
        content.push(subaccount.0[j]);
        assert(content@ =~= head + subaccount@.take(j + 1));
        j += 1;
    }
    assert(subaccount@.take(32) =~= subaccount@);
    push_le32(&mut content, token.tx_id);
    assert(content@ =~= token_content(token@));
    content
}

impl CertTree {
    /// Certifies the registry's name and symbol.
    pub fn certify_names(&mut self, state: &State)
        ensures
            final(self)@ == with_names(old(self)@, state@),
    {
        let name = state.name().as_str().as_bytes_vec();
        let symbol = state.symbol().as_str().as_bytes_vec();
        let name_key: Vec<u8> = vec![47u8, 110u8, 97u8, 109u8, 101u8];
        let symbol_key: Vec<u8> = vec![47u8, 115u8, 121u8, 109u8, 98u8, 111u8, 108u8];
        assert(name_key@ =~= self::name_key());
        assert(symbol_key@ =~= self::symbol_key());
        self.certify(name_key, &name);
        self.certify(symbol_key, &symbol);
    }

    /// Certifies token `id` as the registry has it; nothing, where the
    /// registry has no such token.
    pub fn certify_token(&mut self, state: &State, id: TokenId)
        ensures
            final(self)@ == with_token(old(self)@, state@, id),
    {
        match state.token(id) {
            Some(token) => {
                let prefix: Vec<u8> = vec![47u8, 116u8, 111u8, 107u8, 101u8, 110u8, 47u8];
                let key = numbered_key(prefix, id as u64);
                assert(key@ =~= token_key(id));
                let content = content_of(&token);
                self.certify(key, &content);
            },
            None => {},
        }
    }

    /// Certifies every token of the registry, in the order of tokens.
    pub fn certify_all_tokens(&mut self, state: &State)
        ensures
            final(self)@ == with_tokens(old(self)@, state@, state@.order),
    {
        let ids = state.token_ids();
        let n = ids.len();
        let mut i: usize = 0;
        assert(ids@.take(0) =~= Seq::<TokenId>::empty());
        while i < n
            invariant
                i <= n,
                n == ids@.len(),
                ids@ == state@.order,
                self@ == with_tokens(old(self)@, state@, ids@.take(i as int)),
            decreases n - i,
        {
            proof {
                let next = ids@.take(i + 1);
                assert(next.drop_last() =~= ids@.take(i as int));
                assert(next.last() == ids@[i as int]);
            }
            self.certify_token(state, ids[i]);
            i += 1;
        }
        assert(ids@.take(n as int) =~= ids@);
    }

    /// Certifies the number of tokens in circulation and the number of
    /// transactions.
    pub fn certify_totals(&mut self, state: &State)
        requires
            state.wf(),
        ensures
            final(self)@ == with_totals(old(self)@, state@),
    {
        let supply = to_decimal(state.total_supply());
        let total = to_decimal(state.tx_total() as u64);
        let supply_key: Vec<u8> = vec![
            47u8, 116u8, 111u8, 116u8, 97u8, 108u8, 95u8, 115u8, 117u8, 112u8, 112u8, 108u8, 121u8,
        ];
        let total_key: Vec<u8> = vec![
            47u8, 104u8, 105u8, 115u8, 116u8, 111u8, 114u8, 121u8, 95u8, 116u8, 111u8, 116u8, 97u8,
            108u8,
        ];
        assert(supply_key@ =~= total_supply_key());
        assert(total_key@ =~= history_total_key());
        self.certify(supply_key, &supply);
        self.certify(total_key, &total);
    }

    /// Certifies the records of the closed blocks from index `from` on, each
    /// block under its key.
    pub fn certify_blocks(&mut self, closed: &Vec<Flush>, from: usize, block_size: u32)
        requires
            from <= closed@.len(),
        ensures
            final(self)@ == with_blocks(
                old(self)@,
                outbox_view(closed@).skip(from as int),
                block_size as nat,
            ),
    {
        let limit: u64 = if block_size == 0 {
            1
        } else {
            block_size as u64
        };
        let n = closed.len();
        let ghost all = outbox_view(closed@).skip(from as int);
        let mut i: usize = from;
        assert(all.take(0) =~= Seq::<FlushView>::empty());
        while i < n
            invariant
                from <= i <= n,
                n == closed@.len(),
                all == outbox_view(closed@).skip(from as int),
                limit == threshold(block_size as nat),
                self@ == with_blocks(old(self)@, all.take(i - from), block_size as nat),
            decreases n - i,
        {
            let block_id: u64 = closed[i].offset / (78 * limit);
            let prefix: Vec<u8> = vec![
                47u8, 104u8, 105u8, 115u8, 116u8, 111u8, 114u8, 121u8, 47u8,
            ];
            let key = numbered_key(prefix, block_id);
            proof {
                let at = i - from;
                assert(all[at] == closed@[i as int]@);
                assert(key@ =~= history_key(block_at(all[at].offset, block_size as nat)));
                let next = all.take(at + 1);
                assert(next.drop_last() =~= all.take(at));
                assert(next.last() == all[at]);
            }
            self.certify(key, &closed[i].bytes);
            i += 1;
        }
        assert(all.take(n - from) =~= all);
    }

    /// Brings the tree up to date after a commit: certifies the token that
    /// the operation touched, if it touched one, then the totals, then the
    /// blocks that the commit closed, which are those from index `from` on
    /// among the blocks that wait in the registry.
    pub fn commit(&mut self, state: &State, touched: Option<TokenId>, from: usize)
        requires
            state.wf(),
            from <= state@.outbox.len(),
        ensures
            final(self)@ == after_commit(old(self)@, state@, touched, state@.outbox.skip(from as int)),
    {
        match touched {
            Some(id) => {
                self.certify_token(state, id);
            },
            None => {},
        }
        self.certify_totals(state);
        let size = state.block_size();
        let closed = state.pending();
        proof {
            lemma_blocks_by_threshold(self@, outbox_view(closed@).skip(from as int), state@.block_size);
        }
        self.certify_blocks(closed, from, size);
    }
}

/// The id of a block does not depend on whether the size of blocks is
/// written as 0 or as 1: a block closes at its first event either way.
pub proof fn lemma_blocks_by_threshold(
    entries: Map<Seq<u8>, Seq<u8>>,
    closed: Seq<FlushView>,
    block_size: nat,
)
    ensures
        with_blocks(entries, closed, threshold(block_size)) == with_blocks(
            entries,
            closed,
            block_size,
        ),
    decreases closed.len(),
{
    if closed.len() > 0 {
        lemma_blocks_by_threshold(entries, closed.drop_last(), block_size);
    }
}

} // verus!

//! Story-script state: a flat string memory, script commands, and the
//! conversation walker that serves dialogue lines block by block,
//! skipping blocks whose key is absent or false.

use vstd::prelude::*;
use crate::exp::{view_strings, lemma_view_strings};
use crate::frontend::Expr;

verus! {

/// A flat name-to-text memory for a running script.
#[derive(Debug)]
pub struct Memory {
    pub map: Vec<(String, String)>,
}

impl Memory {
    pub fn new() -> (r: Self)
        ensures
            r.map@.len() == 0,
    {
        Memory { map: Vec::new() }
    }
}

/// One step of a running script.
#[derive(Debug)]
pub enum Cmd {
    Noop,
    Say(String, String),
    Let(String, String),
}

/// A parsed script with its memory and its position.
#[derive(Debug)]
pub struct Script {
    pub objects: Vec<Expr>,
    pub memory: Memory,
    pub index: usize,
}

/// The guard flags of a conversation, by key name.
#[derive(Debug)]
pub struct KeyStore {
    pub map: Vec<(String, bool)>,
}

/// The flag bound to a key name, first binding wins.
pub open spec fn key_lookup_from(ks: Seq<(Seq<char>, bool)>, k: Seq<char>, i: int) -> Option<bool>
    decreases ks.len() - i,
{
    if i < 0 || i >= ks.len() {
        None
    } else if ks[i].0 == k {
        Some(ks[i].1)
    } else {
        key_lookup_from(ks, k, i + 1)
    }
}

pub open spec fn key_lookup(ks: Seq<(Seq<char>, bool)>, k: Seq<char>) -> Option<bool> {
    key_lookup_from(ks, k, 0)
}

pub open spec fn view_keys(s: Seq<(String, bool)>) -> Seq<(Seq<char>, bool)>
    decreases s,
{
    if s.len() == 0 {
        Seq::empty()
    } else {
        seq![(s[0].0@, s[0].1)] + view_keys(s.drop_first())
    }
}

pub proof fn lemma_view_keys(s: Seq<(String, bool)>)
    ensures
        view_keys(s).len() == s.len(),
        forall|i: int| 0 <= i < s.len() ==> view_keys(s)[i] == (s[i].0@, s[i].1),
    decreases s.len(),
{
    if s.len() > 0 {
        lemma_view_keys(s.drop_first());
        assert(view_keys(s) == seq![(s[0].0@, s[0].1)] + view_keys(s.drop_first()));
        assert forall|i: int| 0 <= i < s.len() implies view_keys(s)[i] == (s[i].0@, s[i].1) by {
            if i > 0 {
                assert(s.drop_first()[i - 1] == s[i]);
                assert(view_keys(s)[i] == view_keys(s.drop_first())[i - 1]);
            } else {
                assert(view_keys(s)[0] == (s[0].0@, s[0].1));
            }
        }
    }
}

impl KeyStore {
    /// The flag bound to a key, if any.
    pub fn check(&self, key: &String) -> (r: Option<&bool>)
        ensures
            match r {
                Some(b) => key_lookup(view_keys(self.map@), key@) == Some(*b),
                None => key_lookup(view_keys(self.map@), key@) is None,
            },
    {
        proof {
            lemma_view_keys(self.map@);
        }
        let ghost kv = view_keys(self.map@);
        let mut i: usize = 0;
        while i < self.map.len()
            invariant
                i <= self.map@.len(),
                kv == view_keys(self.map@),
                kv.len() == self.map@.len(),
                forall|j: int| 0 <= j < self.map@.len() ==> kv[j] == (self.map@[j].0@, self.map@[j].1),
                key_lookup(kv, key@) == key_lookup_from(kv, key@, i as int),
            decreases self.map@.len() - i,
        {
            if self.map[i].0.eq(key) {
                return Some(&self.map[i].1);
            }
            i = i + 1;
        }
        None
    }
}

/// One block of dialogue: lines guarded by an optional key.
#[derive(Debug)]
pub struct Block {
    pub key: Option<String>,
    pub lines: Vec<String>,
}

/// The mathematical shape of a `Block`.
#[verifier::ext_equal]
pub struct BlockV {
    pub key: Option<Seq<char>>,
    pub lines: Seq<Seq<char>>,
}

impl View for Block {
    type V = BlockV;

    open spec fn view(&self) -> BlockV {
        BlockV {
            key: match self.key {
                Some(k) => Some(k@),
                None => None,
            },
            lines: view_strings(self.lines@),
        }
    }
}

pub open spec fn view_blocks(s: Seq<Block>) -> Seq<BlockV>
    decreases s,
{
    if s.len() == 0 {
        Seq::empty()
    } else {
        seq![s[0]@] + view_blocks(s.drop_first())
    }
}

pub proof fn lemma_view_blocks(s: Seq<Block>)
    ensures
        view_blocks(s).len() == s.len(),
        forall|i: int| 0 <= i < s.len() ==> view_blocks(s)[i] == s[i]@,
    decreases s.len(),
{
    if s.len() > 0 {
        lemma_view_blocks(s.drop_first());
        assert(view_blocks(s) == seq![s[0]@] + view_blocks(s.drop_first()));
        assert forall|i: int| 0 <= i < s.len() implies view_blocks(s)[i] == s[i]@ by {
            if i > 0 {
                assert(s.drop_first()[i - 1] == s[i]);
                assert(view_blocks(s)[i] == view_blocks(s.drop_first())[i - 1]);
            } else {
                assert(view_blocks(s)[0] == s[0]@);
            }
        }
    }
}

/// Whether a block may be shown: an unguarded block always, a
/// guarded one only when its key is bound true.
pub open spec fn block_open(b: BlockV, ks: Seq<(Seq<char>, bool)>) -> bool {
    match b.key {
        Some(k) => match key_lookup(ks, k) {
            Some(v) => v,
            None => false,
        },
        None => true,
    }
}

/// The line served from position `(i, j)`: the next line of the first
/// open block with lines left, together with the position after it;
/// `None` when the conversation is over.
pub open spec fn get_line_spec(
    blocks: Seq<BlockV>,
    ks: Seq<(Seq<char>, bool)>,
    i: int,
    j: int,
) -> Option<(int, int, Seq<char>)>
    decreases blocks.len() - i,
{
    if i < 0 || i >= blocks.len() {
        None
    } else {
        let b = blocks[i];
        if !block_open(b, ks) {
            get_line_spec(blocks, ks, i + 1, 0)
        } else if 0 <= j < b.lines.len() {
            Some((i, j + 1, b.lines[j]))
        } else {
            get_line_spec(blocks, ks, i + 1, 0)
        }
    }
}

/// A conversation: its guard flags and its blocks of dialogue.
#[derive(Debug)]
pub struct Convo {
    pub keystore: KeyStore,
    pub blocks: Vec<Block>,
}

impl Convo {
    /// Serves the dialogue line at the cursor and advances it,
    /// skipping closed and exhausted blocks.
    pub fn get_line(&self, index: &mut (usize, usize)) -> (r: Option<&String>)
        ensures
            match r {
                Some(line) => get_line_spec(
                    view_blocks(self.blocks@),
                    view_keys(self.keystore.map@),
                    old(index).0 as int,
                    old(index).1 as int,
                ) == Some((final(index).0 as int, final(index).1 as int, line@)),
                None => get_line_spec(
                    view_blocks(self.blocks@),
                    view_keys(self.keystore.map@),
                    old(index).0 as int,
                    old(index).1 as int,
                ) is None,
            },
        decreases self.blocks@.len() - index.0,
    {
        proof {
            lemma_view_blocks(self.blocks@);
        }
        let ghost bv = view_blocks(self.blocks@);
        let ghost kv = view_keys(self.keystore.map@);
        if index.0 >= self.blocks.len() {
            return None;
        }
        let block = &self.blocks[index.0];
        let key_valid = match &block.key {
            Some(key) => {
                match self.keystore.check(key) {
                    Some(v) => *v,
                    None => false,
                }
            },
            None => true,
        };
        proof {
            assert(bv[old(index).0 as int] == self.blocks@[old(index).0 as int]@);
            assert(key_valid == block_open(bv[old(index).0 as int], kv));
        }
        if !key_valid {
            index.0 = index.0 + 1;
            index.1 = 0;
            let r = self.get_line(index);
            proof {
                assert(get_line_spec(bv, kv, old(index).0 as int, old(index).1 as int)
                    == get_line_spec(bv, kv, old(index).0 as int + 1, 0));
            }
            return r;
        }
        if index.1 < block.lines.len() {
            let line = &block.lines[index.1];
            proof {
                lemma_view_strings(block.lines@);
                assert(bv[old(index).0 as int].lines == view_strings(block.lines@));
                assert(get_line_spec(bv, kv, old(index).0 as int, old(index).1 as int) == Some((
                    old(index).0 as int,
                    old(index).1 as int + 1,
                    bv[old(index).0 as int].lines[old(index).1 as int],
                )));
            }
            index.1 = index.1 + 1;
            Some(line)
        } else {
            proof {
                lemma_view_strings(block.lines@);
                assert(bv[old(index).0 as int].lines == view_strings(block.lines@));
            }
            index.0 = index.0 + 1;
            index.1 = 0;
            let r = self.get_line(index);
            proof {
                assert(get_line_spec(bv, kv, old(index).0 as int, old(index).1 as int)
                    == get_line_spec(bv, kv, old(index).0 as int + 1, 0));
            }
            r
        }
    }
}

} // verus!

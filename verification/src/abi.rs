//! The process-init-info block.
//!
//! Before a user thread first runs, its arguments, environment and
//! auxiliary vector are serialized onto the top of its user stack and the
//! stack pointer moves down past them. The layout, from the final stack
//! pointer upward, is: the argument count; one pointer per argument string
//! and a zero; one pointer per environment string and a zero; the auxiliary
//! key/value pairs and a zero pair; zero padding up to a word multiple; and
//! the NUL-terminated strings themselves, ending flush with the old stack
//! top. Words are 8 bytes, little-endian; the pointers point into the
//! string area.

use vstd::prelude::*;
use crate::elf::ImageError;

verus! {

/// Auxiliary-vector key: address of the program-header table.
pub const AT_PHDR: usize = 3;

/// Auxiliary-vector key: size of one program-header entry.
pub const AT_PHENT: usize = 4;

/// Auxiliary-vector key: number of program-header entries.
pub const AT_PHNUM: usize = 5;

/// Auxiliary-vector key: system page size.
pub const AT_PAGESZ: usize = 6;

/// Bytes of one word, little-endian.
pub open spec fn le8(v: int) -> Seq<u8> {
    seq![
        (v % 256) as u8,
        ((v / 0x100) % 256) as u8,
        ((v / 0x10000) % 256) as u8,
        ((v / 0x1000000) % 256) as u8,
        ((v / 0x100000000) % 256) as u8,
        ((v / 0x10000000000) % 256) as u8,
        ((v / 0x1000000000000) % 256) as u8,
        ((v / 0x100000000000000) % 256) as u8,
    ]
}

/// Bytes of a sequence of words, in order.
pub open spec fn words_bytes(ws: Seq<int>) -> Seq<u8>
    decreases ws.len(),
{
    if ws.len() == 0 {
        Seq::empty()
    } else {
        words_bytes(ws.drop_last()) + le8(ws.last())
    }
}

/// The strings of `ss`, each followed by one NUL byte.
pub open spec fn strs_bytes(ss: Seq<Seq<u8>>) -> Seq<u8>
    decreases ss.len(),
{
    if ss.len() == 0 {
        Seq::empty()
    } else {
        strs_bytes(ss.drop_last()) + ss.last() + seq![0u8]
    }
}

/// Total size of the string area for `ss`.
pub open spec fn strs_len(ss: Seq<Seq<u8>>) -> int {
    strs_bytes(ss).len() as int
}

/// `n` rounded up to a multiple of 8.
pub open spec fn pad8(n: int) -> int {
    if n % 8 == 0 {
        n
    } else {
        n + 8 - n % 8
    }
}

/// Number of words in the block.
pub open spec fn words_count(nargs: int, nenvs: int, naux: int) -> int {
    5 + nargs + nenvs + 2 * naux
}

/// The word at position `i` of the block: argc, the argument pointers and
/// a zero, the environment pointers and a zero, the auxiliary pairs and a
/// zero pair. `base` is the address of the string area.
#[verifier::opaque]
pub open spec fn word_at(
    args: Seq<Seq<u8>>,
    envs: Seq<Seq<u8>>,
    aux: Seq<(usize, usize)>,
    base: int,
    i: int,
) -> int {
    let na = args.len() as int;
    let ne = envs.len() as int;
    if i == 0 {
        na
    } else if i <= na {
        base + strs_len(args.take(i - 1))
    } else if i == na + 1 {
        0
    } else if i <= na + 1 + ne {
        base + strs_len(args) + strs_len(envs.take(i - na - 2))
    } else if i == na + ne + 2 {
        0
    } else if i < na + ne + 3 + 2 * aux.len() {
        let t = i - (na + ne + 3);
        if t % 2 == 0 {
            aux[t / 2].0 as int
        } else {
            aux[t / 2].1 as int
        }
    } else {
        0
    }
}

/// Every word of the block, in order.
pub open spec fn words_of(
    args: Seq<Seq<u8>>,
    envs: Seq<Seq<u8>>,
    aux: Seq<(usize, usize)>,
    base: int,
) -> Seq<int> {
    Seq::new(
        words_count(args.len() as int, envs.len() as int, aux.len() as int) as nat,
        |i: int| word_at(args, envs, aux, base, i),
    )
}

/// Size in bytes of the whole block.
pub open spec fn block_size(args: Seq<Seq<u8>>, envs: Seq<Seq<u8>>, naux: int) -> int {
    8 * words_count(args.len() as int, envs.len() as int, naux) + pad8(
        strs_len(args) + strs_len(envs),
    )
}

/// The whole block as it sits in memory when its last byte ends at
/// address `top`: words, padding, then the string area.
pub open spec fn init_block(
    args: Seq<Seq<u8>>,
    envs: Seq<Seq<u8>>,
    aux: Seq<(usize, usize)>,
    top: int,
) -> Seq<u8> {
    let st = strs_len(args) + strs_len(envs);
    words_bytes(words_of(args, envs, aux, top - st)) + Seq::new(
        (pad8(st) - st) as nat,
        |i: int| 0u8,
    ) + strs_bytes(args) + strs_bytes(envs)
}

/// The mathematical values of a vector of byte strings.
pub open spec fn vecs_views(s: Seq<Vec<u8>>) -> Seq<Seq<u8>> {
    Seq::new(s.len(), |i: int| s[i]@)
}

proof fn lemma_words_bytes_len(ws: Seq<int>)
    ensures
        words_bytes(ws).len() == 8 * ws.len(),
    decreases ws.len(),
{
    if ws.len() > 0 {
        lemma_words_bytes_len(ws.drop_last());
    }
}

proof fn lemma_words_bytes_take_succ(ws: Seq<int>, i: int)
    requires
        0 <= i < ws.len(),
    ensures
        words_bytes(ws.take(i + 1)) == words_bytes(ws.take(i)) + le8(ws[i]),
{
    assert(ws.take(i + 1).drop_last() =~= ws.take(i));
    assert(ws.take(i + 1).last() == ws[i]);
}

proof fn lemma_strs_bytes_take_succ(ss: Seq<Seq<u8>>, i: int)
    requires
        0 <= i < ss.len(),
    ensures
        strs_bytes(ss.take(i + 1)) == strs_bytes(ss.take(i)) + ss[i] + seq![0u8],
{
    assert(ss.take(i + 1).drop_last() =~= ss.take(i));
    assert(ss.take(i + 1).last() == ss[i]);
}

/// The string area only grows with its prefix length.
proof fn lemma_strs_len_take_le(ss: Seq<Seq<u8>>, i: int)
    requires
        0 <= i <= ss.len(),
    ensures
        strs_len(ss.take(i)) <= strs_len(ss),
    decreases ss.len() - i,
{
    if i < ss.len() {
        lemma_strs_bytes_take_succ(ss, i);
        lemma_strs_len_take_le(ss, i + 1);
    } else {
        assert(ss.take(i) =~= ss);
    }
}

/// Append one little-endian word to `block`.
fn push_word(block: &mut Vec<u8>, w: usize)
    ensures
        final(block)@ == old(block)@ + le8(w as int),
{
    let x = w as u64;
    block.push((x % 0x100) as u8);
    block.push(((x / 0x100) % 0x100) as u8);
    block.push(((x / 0x10000) % 0x100) as u8);
    block.push(((x / 0x1000000) % 0x100) as u8);
    block.push(((x / 0x100000000) % 0x100) as u8);
    block.push(((x / 0x10000000000) % 0x100) as u8);
    block.push(((x / 0x1000000000000) % 0x100) as u8);
    block.push(((x / 0x100000000000000) % 0x100) as u8);
    assert(block@ =~= old(block)@ + le8(w as int));
}

/// Size of the string area for `ss`, or nothing if it cannot fit the
/// machine's address range.
fn strs_total(ss: &Vec<Vec<u8>>) -> (r: Option<usize>)
    ensures
        r is Some <==> strs_len(vecs_views(ss@)) <= usize::MAX,
        r matches Some(v) ==> v as int == strs_len(vecs_views(ss@)),
{
    let ghost g = vecs_views(ss@);
    let n = ss.len();
    let mut st: usize = 0;
    let mut i: usize = 0;
    while i < n
        invariant
            0 <= i <= n,
            n == ss@.len(),
            g == vecs_views(ss@),
            st as int == strs_len(g.take(i as int)),
        decreases n - i,
    {
        let l = ss[i].len();
        proof {
            lemma_strs_bytes_take_succ(g, i as int);
            assert(g[i as int] == ss@[i as int]@);
        }
        if st as u128 + l as u128 + 1 > usize::MAX as u128 {
            proof {
                lemma_strs_len_take_le(g, i as int + 1);
            }
            return None;
        }
        st = st + l + 1;
        i += 1;
    }
    proof {
        assert(g.take(n as int) =~= g);
    }
    Some(st)
}

/// Append every string of `ss`, each followed by one NUL byte.
fn push_strs(block: &mut Vec<u8>, ss: &Vec<Vec<u8>>)
    ensures
        final(block)@ == old(block)@ + strs_bytes(vecs_views(ss@)),
{
    let ghost g = vecs_views(ss@);
    let n = ss.len();
    let mut i: usize = 0;
    assert(old(block)@ + strs_bytes(g.take(0)) =~= old(block)@);
    while i < n
        invariant
            0 <= i <= n,
            n == ss@.len(),
            g == vecs_views(ss@),
            block@ == old(block)@ + strs_bytes(g.take(i as int)),
        decreases n - i,
    {
        let s = &ss[i];
        assert(s@ == g[i as int]);
        let sl = s.len();
        let mut k: usize = 0;
        while k < sl
            invariant
                0 <= k <= sl,
                sl == s@.len(),
                s@ == g[i as int],
                i < n,
                n == ss@.len(),
                g == vecs_views(ss@),
                block@ == old(block)@ + strs_bytes(g.take(i as int)) + s@.take(k as int),
            decreases sl - k,
        {
            block.push(s[k]);
            assert(block@ =~= old(block)@ + strs_bytes(g.take(i as int)) + s@.take(k as int + 1));
            k += 1;
        }
        block.push(0u8);
        proof {
            lemma_strs_bytes_take_succ(g, i as int);
            assert(s@.take(sl as int) =~= s@);
            assert(block@ =~= old(block)@ + strs_bytes(g.take(i as int + 1)));
        }
        i += 1;
    }
    proof {
        assert(g.take(n as int) =~= g);
    }
}


/// Append the auxiliary words `words[w0 .. w0 + 2 * aux.len()]`, which the
/// caller has shown to be the aux pairs flattened in order.
fn push_aux(
    block: &mut Vec<u8>,
    aux: &Vec<(usize, usize)>,
    Ghost(words): Ghost<Seq<int>>,
    Ghost(w0): Ghost<int>,
)
    requires
        0 <= w0,
        w0 + 2 * aux@.len() <= words.len(),
        forall|i: int|
            w0 <= i < w0 + 2 * aux@.len() ==> #[trigger] words[i] == (if (i - w0) % 2 == 0 {
                aux@[(i - w0) / 2].0 as int
            } else {
                aux@[(i - w0) / 2].1 as int
            }),
        old(block)@ == words_bytes(words.take(w0)),
    ensures
        final(block)@ == words_bytes(words.take(w0 + 2 * aux@.len())),
{
    let nx = aux.len();
    let mut x: usize = 0;
    while x < nx
        invariant
            0 <= x <= nx,
            nx == aux@.len(),
            0 <= w0,
            w0 + 2 * nx <= words.len(),
            forall|i: int|
                w0 <= i < w0 + 2 * nx ==> #[trigger] words[i] == (if (i - w0) % 2 == 0 {
                    aux@[(i - w0) / 2].0 as int
                } else {
                    aux@[(i - w0) / 2].1 as int
                }),
            block@ == words_bytes(words.take(w0 + 2 * x)),
        decreases nx - x,
    {
        let (k, v) = aux[x];
        proof {
            assert(words[w0 + 2 * x] == k as int);
            lemma_words_bytes_take_succ(words, w0 + 2 * x);
        }
        push_word(block, k);
        proof {
            assert(block@ == words_bytes(words.take(w0 + 2 * x + 1)));
            assert(words[w0 + 2 * x + 1] == v as int);
            lemma_words_bytes_take_succ(words, w0 + 2 * x + 1);
        }
        push_word(block, v);
        proof {
            assert(block@ == words_bytes(words.take(w0 + 2 * x + 2)));
        }
        x += 1;
    }
}

/// Arguments, environment and auxiliary vector recorded for a new user
/// thread, ready to be pushed onto its stack.
pub struct ProcInitInfo {
    pub args: Vec<Vec<u8>>,
    pub envs: Vec<Vec<u8>>,
    pub auxv: Vec<(usize, usize)>,
}

impl ProcInitInfo {
    /// Serialize the block that belongs just below stack address `top`,
    /// and the stack pointer left after pushing it. Fails, with no other
    /// effect, exactly when the block does not fit below `top`.
    #[verifier::rlimit(100)]
    pub fn build_block(&self, top: usize) -> (r: Result<(Vec<u8>, usize), ImageError>)
        ensures
            r is Ok <==> block_size(
                vecs_views(self.args@),
                vecs_views(self.envs@),
                self.auxv@.len() as int,
            ) <= top,
            r matches Ok((block, sp)) ==> {
                &&& block@ == init_block(
                    vecs_views(self.args@),
                    vecs_views(self.envs@),
                    self.auxv@,
                    top as int,
                )
                &&& block@.len() == block_size(
                    vecs_views(self.args@),
                    vecs_views(self.envs@),
                    self.auxv@.len() as int,
                )
                &&& sp as int == top - block@.len()
            },
            r is Err ==> r == Err::<(Vec<u8>, usize), ImageError>(ImageError::BadInitStack),
    {
        let ghost gargs = vecs_views(self.args@);
        let ghost genvs = vecs_views(self.envs@);
        let na = self.args.len();
        let ne = self.envs.len();
        let nx = self.auxv.len();

        // Size of the string area; nothing below `top` can exceed the
        // machine's address range.
        let st_args = match strs_total(&self.args) {
            Some(v) => v,
            None => { return Err(ImageError::BadInitStack); },
        };
        let st_envs = match strs_total(&self.envs) {
            Some(v) => v,
            None => { return Err(ImageError::BadInitStack); },
        };
        let st128: u128 = st_args as u128 + st_envs as u128;
        if st128 > top as u128 {
            return Err(ImageError::BadInitStack);
        }
        let st: usize = st128 as usize;

        // Whole-block size, computed wide so that it cannot overflow.
        let wc128: u128 = 5 + na as u128 + ne as u128 + 2 * nx as u128;
        let rem: usize = st % 8;
        let pad: usize = if rem == 0 { 0 } else { 8 - rem };
        let bs128: u128 = 8 * wc128 + st as u128 + pad as u128;
        assert(bs128 as int == block_size(gargs, genvs, nx as int));
        if bs128 > top as u128 {
            return Err(ImageError::BadInitStack);
        }
        let bsz: usize = bs128 as usize;
        let sp: usize = top - bsz;
        let strs_base: usize = top - st;
        let ghost words = words_of(gargs, genvs, self.auxv@, strs_base as int);
        proof {
            lemma_words_bytes_len(words);
        }

        let mut block: Vec<u8> = Vec::new();
        let ghost mut w: int = 0;

        // argc
        proof {
            lemma_words_bytes_take_succ(words, 0);
            assert(words.take(0) =~= Seq::<int>::empty());
            assert(words[0] == na as int) by {
                reveal(word_at);
            }
        }
        push_word(&mut block, na);
        proof {
            assert(block@ =~= words_bytes(words.take(1)));
            w = 1;
        }

        // argument pointers
        let mut acc: usize = 0;
        let mut i: usize = 0;
        while i < na
            invariant
                0 <= i <= na,
                na == self.args@.len(),
                ne == self.envs@.len(),
                nx == self.auxv@.len(),
                gargs == vecs_views(self.args@),
                genvs == vecs_views(self.envs@),
                w == 1 + i,
                acc as int == strs_len(gargs.take(i as int)),
                strs_base as int + strs_len(gargs) + strs_len(genvs) == top as int,
                words == words_of(gargs, genvs, self.auxv@, strs_base as int),
                block@ == words_bytes(words.take(w)),
            decreases na - i,
        {
            proof {
                lemma_strs_len_take_le(gargs, i as int);
                assert(words[w] == strs_base as int + strs_len(gargs.take(i as int))) by {
                    reveal(word_at);
                }
                lemma_words_bytes_take_succ(words, w);
            }
            push_word(&mut block, strs_base + acc);
            let l = self.args[i].len();
            proof {
                lemma_strs_bytes_take_succ(gargs, i as int);
                assert(gargs[i as int] == self.args@[i as int]@);
                lemma_strs_len_take_le(gargs, i as int + 1);
                w = w + 1;
            }
            acc = acc + l + 1;
            i += 1;
        }
        proof {
            assert(gargs.take(na as int) =~= gargs);
        }

        // argv terminator
        proof {
            assert(words[w] == 0) by {
                reveal(word_at);
            }
            lemma_words_bytes_take_succ(words, w);
        }
        push_word(&mut block, 0);
        proof {
            w = w + 1;
        }

        // environment pointers
        let envs_base: usize = strs_base + acc;
        let mut acc2: usize = 0;
        let mut j: usize = 0;
        while j < ne
            invariant
                0 <= j <= ne,
                ne == self.envs@.len(),
                na == self.args@.len(),
                nx == self.auxv@.len(),
                gargs == vecs_views(self.args@),
                genvs == vecs_views(self.envs@),
                w == na + 2 + j,
                envs_base as int == strs_base as int + strs_len(gargs),
                acc2 as int == strs_len(genvs.take(j as int)),
                strs_base as int + strs_len(gargs) + strs_len(genvs) == top as int,
                words == words_of(gargs, genvs, self.auxv@, strs_base as int),
                block@ == words_bytes(words.take(w)),
            decreases ne - j,
        {
            proof {
                lemma_strs_len_take_le(genvs, j as int);
                assert(words[w] == strs_base as int + strs_len(gargs) + strs_len(
                    genvs.take(j as int),
                )) by {
                    reveal(word_at);
                }
                lemma_words_bytes_take_succ(words, w);
            }
            push_word(&mut block, envs_base + acc2);
            let l = self.envs[j].len();
            proof {
                lemma_strs_bytes_take_succ(genvs, j as int);
                assert(genvs[j as int] == self.envs@[j as int]@);
                lemma_strs_len_take_le(genvs, j as int + 1);
                w = w + 1;
            }
            acc2 = acc2 + l + 1;
            j += 1;
        }
        proof {
            assert(genvs.take(ne as int) =~= genvs);
        }

        // envp terminator
        proof {
            assert(words[w] == 0) by {
                reveal(word_at);
            }
            lemma_words_bytes_take_succ(words, w);
        }
        push_word(&mut block, 0);
        proof {
            w = w + 1;
        }

        // auxiliary pairs
        proof {
            assert forall|t: int|
                w <= t < w + 2 * nx implies #[trigger] words[t] == (if (t - w) % 2 == 0 {
                self.auxv@[(t - w) / 2].0 as int
            } else {
                self.auxv@[(t - w) / 2].1 as int
            }) by {
                reveal(word_at);
            }
        }
        push_aux(&mut block, &self.auxv, Ghost(words), Ghost(w));
        proof {
            w = w + 2 * nx as int;
        }

        // auxv terminator pair
        proof {
            assert(words[w] == 0) by {
                reveal(word_at);
            }
            lemma_words_bytes_take_succ(words, w);
        }
        push_word(&mut block, 0);
        proof {
            w = w + 1;
            assert(words[w] == 0) by {
                reveal(word_at);
            }
            lemma_words_bytes_take_succ(words, w);
        }
        push_word(&mut block, 0);
        proof {
            w = w + 1;
            assert(w == words.len());
            assert(words.take(w) =~= words);
            assert(block@ == words_bytes(words));
        }

        // padding up to a word multiple
        let mut p: usize = 0;
        while p < pad
            invariant
                0 <= p <= pad,
                block@ == words_bytes(words) + Seq::new(p as nat, |t: int| 0u8),
            decreases pad - p,
        {
            block.push(0u8);
            assert(block@ =~= words_bytes(words) + Seq::new((p + 1) as nat, |t: int| 0u8));
            p += 1;
        }

        // the strings themselves: arguments, then environment
        let ghost zpad = Seq::new(pad as nat, |t: int| 0u8);
        push_strs(&mut block, &self.args);
        push_strs(&mut block, &self.envs);
        proof {
            assert(block@ =~= init_block(gargs, genvs, self.auxv@, top as int));
            lemma_words_bytes_len(words);
        }
        Ok((block, sp))
    }
}

} // verus!

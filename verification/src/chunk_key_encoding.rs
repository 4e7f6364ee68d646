//! Chunk key encodings: the map from chunk grid coordinates to store keys.

use vstd::prelude::*;
use vstd::string::StringExecFns;

use crate::storage::{store_key_valid, StoreKey};
use crate::text::{dec_of, u64_to_dec_string};

verus! {

/// A chunk key encoding.
#[derive(Clone, Copy, Debug)]
pub enum ChunkKeyEncoding {
    /// The `default` encoding: `c`, a separator, and the indices joined by
    /// the separator. A zero-dimensional chunk key is `c`.
    Default {
        /// The separator: `/` or `.`.
        slash_separator: bool,
    },
    /// The `v2` encoding: the indices joined by the separator, `0` for a
    /// zero-dimensional chunk.
    V2 {
        /// The separator: `/` or `.`.
        slash_separator: bool,
    },
}

/// The indices joined by the separator.
pub open spec fn indices_text(indices: Seq<u64>, sep: char) -> Seq<char>
    decreases indices.len(),
{
    if indices.len() == 0 {
        Seq::empty()
    } else if indices.len() == 1 {
        dec_of(indices[0] as nat)
    } else {
        dec_of(indices[0] as nat) + seq![sep] + indices_text(indices.skip(1), sep)
    }
}

/// The text of a chunk key.
pub open spec fn chunk_key_text(e: ChunkKeyEncoding, indices: Seq<u64>) -> Seq<char> {
    match e {
        ChunkKeyEncoding::Default { slash_separator } => {
            let sep = if slash_separator {
                '/'
            } else {
                '.'
            };
            if indices.len() == 0 {
                seq!['c']
            } else {
                seq!['c'] + seq![sep] + indices_text(indices, sep)
            }
        },
        ChunkKeyEncoding::V2 { slash_separator } => {
            let sep = if slash_separator {
                '/'
            } else {
                '.'
            };
            if indices.len() == 0 {
                seq!['0']
            } else {
                indices_text(indices, sep)
            }
        },
    }
}

/// Decimal text is non-empty and made of digits.
proof fn lemma_dec_of_digits(n: nat)
    ensures
        dec_of(n).len() >= 1,
        forall|i: int| 0 <= i < dec_of(n).len() ==> (#[trigger] dec_of(n)[i]) != '/' && dec_of(
            n,
        )[i] != '.',
    decreases n,
{
    if n < 10 {
    } else {
        lemma_dec_of_digits(n / 10);
    }
}

/// A joined index text is non-empty, does not begin or end with a
/// separator character.
proof fn lemma_indices_text_valid(indices: Seq<u64>, sep: char)
    requires
        indices.len() >= 1,
        sep == '/' || sep == '.',
    ensures
        indices_text(indices, sep).len() >= 1,
        indices_text(indices, sep)[0] != '/',
        indices_text(indices, sep)[indices_text(indices, sep).len() - 1] != '/',
    decreases indices.len(),
{
    lemma_dec_of_digits(indices[0] as nat);
    if indices.len() == 1 {
    } else {
        lemma_indices_text_valid(indices.skip(1), sep);
        let t = indices_text(indices, sep);
        let head = dec_of(indices[0] as nat);
        let tail = indices_text(indices.skip(1), sep);
        assert(t[t.len() - 1] == tail[tail.len() - 1]);
        if sep == '/' {
        }
    }
}

impl ChunkKeyEncoding {
    /// A `default` encoding with the `/` separator.
    pub fn new_default() -> (r: Self)
        ensures
            r == (ChunkKeyEncoding::Default { slash_separator: true }),
    {
        ChunkKeyEncoding::Default { slash_separator: true }
    }

    /// A `v2` encoding with the `.` separator.
    pub fn new_v2() -> (r: Self)
        ensures
            r == (ChunkKeyEncoding::V2 { slash_separator: false }),
    {
        ChunkKeyEncoding::V2 { slash_separator: false }
    }

    /// The store key of the chunk at `chunk_indices`, under the array's
    /// root.
    pub fn encode(&self, chunk_indices: &[u64]) -> (r: StoreKey)
        ensures
            r.spec_key() == chunk_key_text(*self, chunk_indices@),
            r.wf(),
    {
        proof {
            reveal_strlit("c");
            reveal_strlit("0");
            reveal_strlit("/");
            reveal_strlit(".");
        }
        let slash = match self {
            ChunkKeyEncoding::Default { slash_separator } => *slash_separator,
            ChunkKeyEncoding::V2 { slash_separator } => *slash_separator,
        };
        let sep: &str = if slash {
            "/"
        } else {
            "."
        };
        let ghost sepc = if slash {
            '/'
        } else {
            '.'
        };
        proof {
            assert(sep@ =~= seq![sepc]);
        }
        let mut s = String::new();
        let is_default = match self {
            ChunkKeyEncoding::Default { .. } => true,
            ChunkKeyEncoding::V2 { .. } => false,
        };
        if is_default {
            s.append("c");
        }
        if chunk_indices.len() == 0 {
            if !is_default {
                s.append("0");
            }
            proof {
                assert(s@ =~= chunk_key_text(*self, chunk_indices@));
                lemma_chunk_key_valid(*self, chunk_indices@);
            }
            return StoreKey::from_valid_string(s);
        }
        if is_default {
            s.append(sep);
        }
        let mut i: usize = 0;
        let ghost head = s@;
        while i < chunk_indices.len()
            invariant
                0 <= i <= chunk_indices@.len(),
                chunk_indices@.len() >= 1,
                sep@ == seq![sepc],
                s@ == head + joined_prefix(chunk_indices@, sepc, i as int),
            decreases chunk_indices@.len() - i,
        {
            if i > 0 {
                s.append(sep);
            }
            let t = u64_to_dec_string(chunk_indices[i]);
            s.append(t.as_str());
            i = i + 1;
            proof {
                lemma_joined_prefix_snoc(chunk_indices@, sepc, i as int);
                assert(s@ =~= head + joined_prefix(chunk_indices@, sepc, i as int));
            }
        }
        proof {
            lemma_joined_prefix_full(chunk_indices@, sepc);
            assert(s@ =~= chunk_key_text(*self, chunk_indices@));
            lemma_chunk_key_valid(*self, chunk_indices@);
        }
        StoreKey::from_valid_string(s)
    }
}

/// The first `i` indices joined by the separator.
pub open spec fn joined_prefix(indices: Seq<u64>, sep: char, i: int) -> Seq<char>
    decreases i,
{
    if i <= 0 {
        Seq::empty()
    } else if i == 1 {
        dec_of(indices[0] as nat)
    } else {
        joined_prefix(indices, sep, i - 1) + seq![sep] + dec_of(indices[i - 1] as nat)
    }
}

/// One more index extends the joined prefix.
proof fn lemma_joined_prefix_snoc(indices: Seq<u64>, sep: char, i: int)
    requires
        0 < i <= indices.len(),
    ensures
        joined_prefix(indices, sep, i) == if i == 1 {
            joined_prefix(indices, sep, 0) + dec_of(indices[0] as nat)
        } else {
            (joined_prefix(indices, sep, i - 1) + seq![sep]) + dec_of(indices[i - 1] as nat)
        },
{
    if i == 1 {
        assert(joined_prefix(indices, sep, 0) + dec_of(indices[0] as nat) =~= dec_of(
            indices[0] as nat,
        ));
    } else {
        assert((joined_prefix(indices, sep, i - 1) + seq![sep]) + dec_of(indices[i - 1] as nat)
            =~= joined_prefix(indices, sep, i - 1) + seq![sep] + dec_of(indices[i - 1] as nat));
    }
}

/// The full joined prefix is the joined index text.
proof fn lemma_joined_prefix_full(indices: Seq<u64>, sep: char)
    requires
        indices.len() >= 1,
    ensures
        joined_prefix(indices, sep, indices.len() as int) == indices_text(indices, sep),
    decreases indices.len(),
{
    if indices.len() == 1 {
    } else {
        lemma_joined_prefix_full(indices.skip(1), sep);
        lemma_joined_prefix_shift(indices, sep, indices.len() as int);
    }
}

/// A joined prefix of a longer list splits off its head.
proof fn lemma_joined_prefix_shift(indices: Seq<u64>, sep: char, i: int)
    requires
        1 <= i <= indices.len(),
        indices.len() >= 2,
    ensures
        joined_prefix(indices, sep, i) == if i == 1 {
            dec_of(indices[0] as nat)
        } else {
            dec_of(indices[0] as nat) + seq![sep] + joined_prefix(indices.skip(1), sep, i - 1)
        },
    decreases i,
{
    if i == 1 {
    } else if i == 2 {
        assert(indices.skip(1)[0] == indices[1]);
        assert(dec_of(indices[0] as nat) + seq![sep] + joined_prefix(indices.skip(1), sep, 1)
            =~= (joined_prefix(indices, sep, 1) + seq![sep]) + dec_of(indices[1] as nat));
    } else {
        lemma_joined_prefix_shift(indices, sep, i - 1);
        assert(indices.skip(1)[i - 2] == indices[i - 1]);
        assert((dec_of(indices[0] as nat) + seq![sep] + joined_prefix(indices.skip(1), sep, i - 2)
            + seq![sep]) + dec_of(indices[i - 1] as nat) =~= dec_of(indices[0] as nat) + seq![sep]
            + (joined_prefix(indices.skip(1), sep, i - 2) + seq![sep] + dec_of(
            indices.skip(1)[i - 2] as nat,
        )));
    }
}

/// A chunk key is a valid store key.
proof fn lemma_chunk_key_valid(e: ChunkKeyEncoding, indices: Seq<u64>)
    ensures
        store_key_valid(chunk_key_text(e, indices)),
{
    let t = chunk_key_text(e, indices);
    if indices.len() == 0 {
    } else {
        match e {
            ChunkKeyEncoding::Default { slash_separator } => {
                let sep = if slash_separator {
                    '/'
                } else {
                    '.'
                };
                lemma_indices_text_valid(indices, sep);
                let it = indices_text(indices, sep);
                assert(t[t.len() - 1] == it[it.len() - 1]);
            },
            ChunkKeyEncoding::V2 { slash_separator } => {
                let sep = if slash_separator {
                    '/'
                } else {
                    '.'
                };
                lemma_indices_text_valid(indices, sep);
            },
        }
    }
}

/// Two index vectors of one length with the same joined text are equal.
pub proof fn lemma_indices_text_injective(a: Seq<u64>, b: Seq<u64>, sep: char)
    requires
        a.len() == b.len(),
        sep == '/' || sep == '.',
        indices_text(a, sep) == indices_text(b, sep),
    ensures
        a =~= b,
    decreases a.len(),
{
    if a.len() == 0 {
        assert(a =~= b);
    } else if a.len() == 1 {
        crate::text::lemma_dec_of_injective(a[0] as nat, b[0] as nat);
        assert(a =~= b);
    } else {
        let t = indices_text(a, sep);
        let ta = dec_of(a[0] as nat);
        let tb = dec_of(b[0] as nat);
        let ra = indices_text(a.skip(1), sep);
        let rb = indices_text(b.skip(1), sep);
        lemma_dec_of_digits(a[0] as nat);
        lemma_dec_of_digits(b[0] as nat);
        assert(t == ta + seq![sep] + ra);
        assert(t == tb + seq![sep] + rb);
        assert(ta.len() == tb.len()) by {
            if ta.len() < tb.len() {
                assert(t[ta.len() as int] == sep);
                assert(t[ta.len() as int] == tb[ta.len() as int]);
            } else if tb.len() < ta.len() {
                assert(t[tb.len() as int] == sep);
                assert(t[tb.len() as int] == ta[tb.len() as int]);
            }
        }
        assert(ta =~= tb) by {
            assert forall|i: int| 0 <= i < ta.len() implies ta[i] == tb[i] by {
                assert(t[i] == ta[i]);
                assert(t[i] == tb[i]);
            }
        }
        crate::text::lemma_dec_of_injective(a[0] as nat, b[0] as nat);
        assert(ra.len() == rb.len());
        assert(ra =~= rb) by {
            assert forall|i: int| 0 <= i < ra.len() implies ra[i] == rb[i] by {
                assert(t[ta.len() + 1 + i] == ra[i]);
                assert(t[tb.len() + 1 + i] == rb[i]);
            }
        }
        lemma_indices_text_injective(a.skip(1), b.skip(1), sep);
        assert(a =~= b) by {
            assert forall|i: int| 0 <= i < a.len() implies a[i] == b[i] by {
                if i > 0 {
                    assert(a.skip(1)[i - 1] == a[i]);
                    assert(b.skip(1)[i - 1] == b[i]);
                }
            }
        }
    }
}

/// Two index vectors of one length with the same chunk key text are equal:
/// the key encoding is injective per dimensionality.
pub proof fn lemma_chunk_key_text_injective(e: ChunkKeyEncoding, a: Seq<u64>, b: Seq<u64>)
    requires
        a.len() == b.len(),
        chunk_key_text(e, a) == chunk_key_text(e, b),
    ensures
        a =~= b,
{
    if a.len() == 0 {
        assert(a =~= b);
    } else {
        match e {
            ChunkKeyEncoding::Default { slash_separator } => {
                let sep = if slash_separator {
                    '/'
                } else {
                    '.'
                };
                let t = chunk_key_text(e, a);
                let ia = indices_text(a, sep);
                let ib = indices_text(b, sep);
                assert(t == seq!['c'] + seq![sep] + ia);
                assert(t == seq!['c'] + seq![sep] + ib);
                assert(ia.len() == ib.len());
                assert(ia =~= ib) by {
                    assert forall|i: int| 0 <= i < ia.len() implies ia[i] == ib[i] by {
                        assert(t[2 + i] == ia[i]);
                        assert(t[2 + i] == ib[i]);
                    }
                }
                lemma_indices_text_injective(a, b, sep);
            },
            ChunkKeyEncoding::V2 { slash_separator } => {
                let sep = if slash_separator {
                    '/'
                } else {
                    '.'
                };
                lemma_indices_text_injective(a, b, sep);
            },
        }
    }
}

} // verus!
use vstd::prelude::*;

use crate::opcode::Opcode;

verus! {

/// The state of the classic left-to-right bracket scan over `code`: the stack
/// of still-unmatched `LoopOpen` indices, and the table of matched pairs built
/// so far (each matched index maps to its partner, in both directions).
pub open spec fn match_scan(code: Seq<Opcode>) -> (Seq<int>, Map<int, int>)
    decreases code.len(),
{
    if code.len() == 0 {
        (Seq::empty(), Map::empty())
    } else {
        let prev = match_scan(code.drop_last());
        let st = prev.0;
        let tb = prev.1;
        let i = code.len() - 1;
        if code.last() is LoopOpen {
            (st.push(i), tb)
        } else if code.last() is LoopClose {
            if st.len() > 0 {
                (st.drop_last(), tb.insert(st.last(), i).insert(i, st.last()))
            } else {
                (st, tb)
            }
        } else {
            (st, tb)
        }
    }
}

/// The jump table of a program: a partial map, defined exactly at the matched
/// `LoopOpen` and `LoopClose` indices, sending each to its partner.
pub open spec fn match_table(code: Seq<Opcode>) -> Map<int, int> {
    match_scan(code).1
}

/// One entry of the jump table as stored: the partner index where the table
/// is defined, and the sentinel default 0 where it is not.
pub open spec fn jump_entry(tb: Map<int, int>, i: int) -> int {
    if tb.dom().contains(i) {
        tb[i]
    } else {
        0
    }
}

/// Everything the bracket scan guarantees about its state: the stack holds
/// strictly increasing, in-range, still-unmatched `LoopOpen` indices, and the
/// table pairs a `LoopOpen` with a later `LoopClose`, mutually.
pub open spec fn scan_invariant(code: Seq<Opcode>, st: Seq<int>, tb: Map<int, int>) -> bool {
    &&& (forall|k: int|
        0 <= k < st.len() ==> 0 <= #[trigger] st[k] < code.len() && code[st[k]] is LoopOpen
            && !tb.dom().contains(st[k]))
    &&& (forall|k1: int, k2: int| 0 <= k1 < k2 < st.len() ==> st[k1] < st[k2])
    &&& (forall|j: int| #[trigger]
        tb.dom().contains(j) ==> {
            &&& 0 <= j < code.len()
            &&& tb.dom().contains(tb[j])
            &&& tb[tb[j]] == j
            &&& tb[j] != j
            &&& (code[j] is LoopOpen || code[j] is LoopClose)
            &&& (code[j] is LoopOpen ==> j < tb[j] && code[tb[j]] is LoopClose)
            &&& (code[j] is LoopClose ==> tb[j] < j && code[tb[j]] is LoopOpen)
        })
}

/// The bracket scan always leaves its state well formed.
pub proof fn lemma_match_scan_invariant(code: Seq<Opcode>)
    ensures
        scan_invariant(code, match_scan(code).0, match_scan(code).1),
    decreases code.len(),
{
    if code.len() == 0 {
    } else {
        let prev = code.drop_last();
        lemma_match_scan_invariant(prev);
        let st = match_scan(prev).0;
        let tb = match_scan(prev).1;
        let i = code.len() - 1;
        assert(forall|j: int| 0 <= j < prev.len() ==> prev[j] == code[j]);
        if code.last() is LoopOpen {
            assert(code[i] is LoopOpen);
            assert(scan_invariant(code, st.push(i), tb));
        } else if code.last() is LoopClose {
            if st.len() > 0 {
                let open = st.last();
                let st2 = st.drop_last();
                let tb2 = tb.insert(open, i).insert(i, open);
                assert(0 <= open < i && code[open] is LoopOpen);
                assert(!tb.dom().contains(open));
                assert(!tb.dom().contains(i));
                assert(forall|k: int| 0 <= k < st2.len() ==> st2[k] == st[k] && st[k] < open);
                assert(scan_invariant(code, st2, tb2));
            } else {
                assert(scan_invariant(code, st, tb));
            }
        } else {
            assert(scan_invariant(code, st, tb));
        }
    }
}

/// Law: bracket pairing. In the jump table of any program, every matched
/// `LoopOpen` index `o` has a `LoopClose` partner `c` with `o < c`,
/// `table[o] == c` and `table[c] == o`.
pub proof fn lemma_match_table_pairing(code: Seq<Opcode>)
    ensures
        forall|o: int|
            (#[trigger] match_table(code).dom().contains(o) && code[o] is LoopOpen) ==> {
                let c = match_table(code)[o];
                &&& 0 <= o < c < code.len()
                &&& code[c] is LoopClose
                &&& match_table(code).dom().contains(c)
                &&& match_table(code)[c] == o
            },
{
    lemma_match_scan_invariant(code);
}

/// Builds the jump table of `code` as a vector with one entry per opcode:
/// the partner index at every matched bracket index, and the sentinel
/// default 0 everywhere else. Unbalanced brackets are tolerated here; they
/// simply stay unmatched.
pub fn build_jump_table(code: &Vec<Opcode>) -> (r: Vec<usize>)
    ensures
        r@.len() == code@.len(),
        forall|j: int|
            0 <= j < code@.len() ==> #[trigger] r@[j] as int == jump_entry(match_table(code@), j),
{
    let n: usize = code.len();
    let mut table: Vec<usize> = vec![0; n];
    let mut stack: Vec<usize> = Vec::new();
    proof {
        assert(forall|j: int| 0 <= j < n ==> table@[j] == 0usize);
        assert(code@.take(0) =~= Seq::<Opcode>::empty());
    }
    let mut i: usize = 0;
    while i < n
        invariant
            n == code@.len(),
            i <= n,
            table@.len() == n,
            stack@.map_values(|u: usize| u as int) == match_scan(code@.take(i as int)).0,
            forall|j: int|
                0 <= j < n ==> #[trigger] table@[j] as int == jump_entry(
                    match_scan(code@.take(i as int)).1,
                    j,
                ),
        decreases n - i,
    {
        let ghost pre = code@.take(i as int);
        let ghost post = code@.take(i + 1);
        proof {
            lemma_match_scan_invariant(pre);
            assert(post.drop_last() =~= pre);
            assert(post.last() == code@[i as int]);
        }
        let op = code[i];
        match op {
            Opcode::LoopOpen => {
                stack.push(i);
                proof {
                    assert(stack@.map_values(|u: usize| u as int) =~= match_scan(post).0);
                }
            },
            Opcode::LoopClose => {
                if stack.len() > 0 {
                    let ghost st0 = stack@.map_values(|u: usize| u as int);
                    let open = stack.pop().unwrap();
                    proof {
                        assert(st0[st0.len() - 1] == open as int);
                        assert(open < i);
                        assert(stack@.map_values(|u: usize| u as int) =~= st0.drop_last());
                    }
                    table[open] = i;
                    table[i] = open;
                    proof {
                        let tb0 = match_scan(pre).1;
                        let tb2 = tb0.insert(open as int, i as int).insert(i as int, open as int);
                        assert(match_scan(post).1 == tb2);
                        assert(match_scan(post).0 =~= st0.drop_last());
                        assert forall|j: int| 0 <= j < n implies #[trigger] table@[j] as int
                            == jump_entry(tb2, j) by {
                            if j == open as int {
                                assert(tb2.dom().contains(j) && tb2[j] == i as int);
                            } else if j == i as int {
                                assert(tb2.dom().contains(j) && tb2[j] == open as int);
                            } else {
                                assert(tb2.dom().contains(j) <==> tb0.dom().contains(j));
                                assert(tb2.dom().contains(j) ==> tb2[j] == tb0[j]);
                            }
                        }
                    }
                } else {
                    proof {
                        assert(stack@.map_values(|u: usize| u as int) =~= match_scan(post).0);
                        assert(match_scan(post).1 == match_scan(pre).1);
                    }
                }
            },
            _ => {
                proof {
                    assert(!(code@[i as int] is LoopOpen) && !(code@[i as int] is LoopClose));
                    assert(match_scan(post).0 == match_scan(pre).0);
                    assert(match_scan(post).1 == match_scan(pre).1);
                }
            },
        }
        i = i + 1;
    }
    proof {
        assert(code@.take(n as int) =~= code@);
    }
    table
}

} // verus!

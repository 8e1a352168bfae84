//! Quoting for values spliced into store statements.
use vstd::prelude::*;
use vstd::string::StrSliceExecFns;
use vstd::string::StringExecFns;

verus! {

/// `s` with every single quote doubled, all else unchanged.
pub open spec fn escape_seq(s: Seq<char>) -> Seq<char>
    decreases s.len(),
{
    if s.len() == 0 {
        Seq::<char>::empty()
    } else {
        escape_seq(s.drop_last()) + (if s.last() == '\'' {
            seq!['\'', '\'']
        } else {
            seq![s.last()]
        })
    }
}

/// Doubles every single quote of `input`, so the result can stand between
/// quotes in a store statement.
pub fn escape_string(input: &str) -> (r: String)
    ensures
        r@ == escape_seq(input@),
{
    let n = input.unicode_len();
    let mut out = String::new();
    let mut i: usize = 0;
    while i < n
        invariant
            i <= n == input@.len(),
            out@ == escape_seq(input@.subrange(0, i as int)),
        decreases n - i,
    {
        let ghost pre = input@.subrange(0, i as int);
        let ghost post = input@.subrange(0, i as int + 1);
        proof {
            assert(post.drop_last() =~= pre);
            assert(post.last() == input@[i as int]);
        }
        if input.get_char(i) == '\'' {
            out.append("''");
            proof {
                reveal_strlit("''");
                assert("''"@ =~= seq!['\'', '\'']);
                assert(out@ =~= escape_seq(post));
            }
        } else {
            out.append(input.substring_char(i, i + 1));
            proof {
                assert(input@.subrange(i as int, i as int + 1) =~= seq![input@[i as int]]);
                assert(out@ =~= escape_seq(post));
            }
        }
        i = i + 1;
    }
    proof {
        assert(input@.subrange(0, n as int) =~= input@);
    }
    out
}

} // verus!

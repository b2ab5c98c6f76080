use vstd::prelude::*;
use vstd::string::StrSliceExecFns;
use vstd::string::StringExecFns;

verus! {

/// The trailing-newline trim: drop `'\n'` and `'\r'` characters from the end
/// of the sequence, however they are mixed, and leave interior ones alone.
pub open spec fn trim_newlines_spec(s: Seq<char>) -> Seq<char>
    decreases s.len(),
{
    if s.len() > 0 && (s.last() == '\n' || s.last() == '\r') {
        trim_newlines_spec(s.drop_last())
    } else {
        s
    }
}

/// String helpers of this library.
pub trait StringUtils: View<V = Seq<char>> + Sized {
    /// Returns a copy with every trailing `'\n'` and `'\r'` removed.
    fn trim_newlines(&self) -> (r: Self)
        ensures
            r@ == trim_newlines_spec(self@),
    ;
}

impl StringUtils for String {
    fn trim_newlines(&self) -> (r: Self) {
        let mut keep: usize = self.as_str().unicode_len();
        proof {
            assert(self@.take(keep as int) =~= self@);
        }
        loop
            invariant_except_break
                keep <= self@.len(),
                trim_newlines_spec(self@.take(keep as int)) == trim_newlines_spec(self@),
            ensures
                keep <= self@.len(),
                self@.take(keep as int) == trim_newlines_spec(self@),
            decreases keep,
        {
            if keep == 0 {
                assert(self@.take(0) =~= Seq::<char>::empty());
                break;
            }
            let c = self.as_str().get_char(keep - 1);
            assert(self@.take(keep as int).last() == c);
            if c != '\n' && c != '\r' {
                break;
            }
            assert(self@.take(keep as int).drop_last() =~= self@.take(keep - 1 as int));
            keep = keep - 1;
        }
        String::from_str(self.as_str().substring_char(0, keep))
    }
}

/// The trim never grows the sequence, only removes a trailing run of newline
/// characters, and leaves no such character at the end.
pub proof fn lemma_trim_newlines_shape(s: Seq<char>)
    ensures
        trim_newlines_spec(s).len() <= s.len(),
        trim_newlines_spec(s) == s.take(trim_newlines_spec(s).len() as int),
        trim_newlines_spec(s).len() > 0 ==> trim_newlines_spec(s).last() != '\n'
            && trim_newlines_spec(s).last() != '\r',
        forall|j: int|
            trim_newlines_spec(s).len() <= j < s.len() ==> s[j] == '\n' || s[j] == '\r',
    decreases s.len(),
{
    if s.len() > 0 && (s.last() == '\n' || s.last() == '\r') {
        lemma_trim_newlines_shape(s.drop_last());
        assert(s.drop_last().take(trim_newlines_spec(s).len() as int) =~= s.take(
            trim_newlines_spec(s).len() as int,
        ));
        assert forall|j: int|
            trim_newlines_spec(s).len() <= j < s.len() implies s[j] == '\n' || s[j] == '\r' by {
            if j < s.len() - 1 {
                assert(s[j] == s.drop_last()[j]);
            } else {
                assert(s[j] == s.last());
            }
        }
    } else {
        assert(s.take(s.len() as int) =~= s);
    }
}

/// Trimming trailing newlines is idempotent: a second application changes
/// nothing.
pub proof fn lemma_trim_newlines_idempotent(s: Seq<char>)
    ensures
        trim_newlines_spec(trim_newlines_spec(s)) == trim_newlines_spec(s),
{
    lemma_trim_newlines_shape(s);
}

/// Character-by-character string equality: true exactly when the two views
/// are the same sequence.
pub fn str_eq(a: &str, b: &str) -> (r: bool)
    ensures
        r == (a@ == b@),
{
    let na: usize = a.unicode_len();
    let nb: usize = b.unicode_len();
    if na != nb {
        return false;
    }
    let mut i: usize = 0;
    while i < na
        invariant
            i <= na,
            na == a@.len(),
            na == b@.len(),
            forall|j: int| 0 <= j < i ==> a@[j] == b@[j],
        decreases na - i,
    {
        if a.get_char(i) != b.get_char(i) {
            return false;
        }
        i = i + 1;
    }
    proof {
        assert(a@ =~= b@);
    }
    true
}

} // verus!

use vstd::prelude::*;
use crate::value::{Val, Value};
use crate::value_ops::obj_lookup;
use crate::patch::find_char;
use crate::lexer::is_digit;

verus! {

// ---------------------------------------------------------------------------
// Chat data carried between the parsed files and the caller
// ---------------------------------------------------------------------------

/// Role-play card fields attached to a chat sender.
pub struct TRP3Info {
    pub first_name: Option<String>,
    pub last_name: Option<String>,
    pub title: Option<String>,
    pub icon: Option<String>,
    pub color: Option<String>,
}

/// Who sent a chat line.
pub struct ChatSender {
    pub game_id: String,
    pub trp3: Option<TRP3Info>,
}

/// One chat line in the unified shape handed to callers.
pub struct ChatRecord {
    pub timestamp: i64,
    pub channel: String,
    pub sender: ChatSender,
    pub content: String,
    pub mark: Option<String>,
    pub npc: Option<String>,
    pub nt: Option<String>,
}

/// One account's chat history.
pub struct AccountChatLogs {
    pub account_id: String,
    pub last_update: Option<i64>,
    pub record_count: i32,
    pub records: Vec<ChatRecord>,
}

/// The add-on's view of synchronization, read back from saved state.
pub struct AddonState {
    pub last_update: Option<i64>,
    pub record_count: Option<i32>,
    pub version: Option<i32>,
}

/// The client's view of synchronization.
pub struct ClientState {
    pub last_sync: Option<i64>,
    pub synced_count: Option<i32>,
    pub cleared_before: Option<i64>,
}

/// Both sides of the synchronization state.
pub struct SyncState {
    pub addon: Option<AddonState>,
    pub client: Option<ClientState>,
}

// ---------------------------------------------------------------------------
// Reading integers out of number values
// ---------------------------------------------------------------------------

/// The integer a digit run denotes.
pub open spec fn dec_val(s: Seq<char>) -> int
    decreases s,
{
    if s.len() == 0 {
        0
    } else {
        dec_val(s.drop_last()) * 10 + (s.last() as u32 - 48)
    }
}

pub open spec fn num_neg(t: Seq<char>) -> bool {
    t.len() > 0 && t[0] == '-'
}

pub open spec fn num_rest(t: Seq<char>) -> Seq<char> {
    if num_neg(t) {
        t.drop_first()
    } else {
        t
    }
}

pub open spec fn num_digits(t: Seq<char>) -> Seq<char> {
    if find_char(num_rest(t), '.', 0) >= 0 {
        num_rest(t).take(find_char(num_rest(t), '.', 0))
    } else {
        num_rest(t)
    }
}

pub open spec fn num_frac(t: Seq<char>) -> Seq<char> {
    if find_char(num_rest(t), '.', 0) >= 0 {
        num_rest(t).skip(find_char(num_rest(t), '.', 0) + 1)
    } else {
        Seq::empty()
    }
}

/// The integer part of a number's decimal text: an optional minus sign, up
/// to eighteen digits, then optionally a dot and a digit run. Anything else
/// (exponent forms included) reads as no integer.
pub open spec fn num_int_of(t: Seq<char>) -> Option<int> {
    if 1 <= num_digits(t).len() <= 18 && (forall|j: int|
        0 <= j < num_digits(t).len() ==> is_digit(num_digits(t)[j])) && (forall|j: int|
        0 <= j < num_frac(t).len() ==> is_digit(num_frac(t)[j])) {
        if num_neg(t) {
            Some(-dec_val(num_digits(t)))
        } else {
            Some(dec_val(num_digits(t)))
        }
    } else {
        None
    }
}

/// The integer a value carries: the integer part of a number's text, per
/// `num_int_of`; any other value carries none.
pub open spec fn val_int_of(v: Val) -> Option<int> {
    match v {
        Val::Num(t) => num_int_of(t),
        _ => None,
    }
}

pub open spec fn pow10(n: nat) -> int
    decreases n,
{
    if n == 0 {
        1
    } else {
        10 * pow10((n - 1) as nat)
    }
}

proof fn lemma_dec_val_bound(s: Seq<char>)
    requires
        forall|j: int| 0 <= j < s.len() ==> is_digit(s[j]),
    ensures
        0 <= dec_val(s) < pow10(s.len()),
    decreases s,
{
    if s.len() > 0 {
        assert(forall|j: int|
            0 <= j < s.drop_last().len() ==> is_digit(#[trigger] s.drop_last()[j]));
        lemma_dec_val_bound(s.drop_last());
        assert(is_digit(s.last()));
        assert(dec_val(s) == dec_val(s.drop_last()) * 10 + (s.last() as u32 - 48));
        assert(dec_val(s.drop_last()) * 10 <= (pow10(s.drop_last().len()) - 1) * 10) by (
        nonlinear_arith)
            requires
                0 <= dec_val(s.drop_last()) <= pow10(s.drop_last().len()) - 1,
        ;
        assert(pow10(s.len()) == 10 * pow10(s.drop_last().len()));
    }
}

proof fn lemma_pow10_18()
    ensures
        pow10(18) == 1000000000000000000,
{
    assert(pow10(18) == 1000000000000000000) by {
        reveal_with_fuel(pow10, 19);
    }
}

impl Value {
    /// Reads the value as an integer, per `val_int_of`.
    #[verifier::loop_isolation(false)]
    #[verifier::rlimit(100)]
    #[verifier::spinoff_prover]
    pub fn as_i64(&self) -> (r: Option<i64>)
        ensures
            match r {
                Some(n) => val_int_of(self@) == Some(n as int),
                None => val_int_of(self@) is None,
            },
    {
        let t: &String = match self {
            Value::Num(t) => t,
            _ => {
                return None;
            },
        };
        let cs = crate::strutil::chars_of(t.as_str());
        let n = cs.len();
        let ghost tv = t@;
        let neg = n > 0 && cs[0] == '-';
        let start: usize = if neg {
            1
        } else {
            0
        };
        let ghost rest = num_rest(tv);
        proof {
            assert(rest =~= tv.subrange(start as int, tv.len() as int));
        }
        // find the dot inside `rest`
        let mut dot: Option<usize> = None;
        let mut q = start;
        while q < n
            invariant
                start <= q <= n,
                n == tv.len(),
                rest == tv.subrange(start as int, tv.len() as int),
                match dot {
                    Some(d) => start <= d < n && find_char(rest, '.', 0) == d - start,
                    None => find_char(rest, '.', 0) == find_char(
                        rest,
                        '.',
                        (q - start) as nat,
                    ),
                },
            decreases n - q,
        {
            if dot.is_none() {
                proof {
                    assert(rest[(q - start) as int] == tv[q as int]);
                }
                if cs[q] == '.' {
                    dot = Some(q);
                }
            }
            q += 1;
        }
        let dend: usize = match dot {
            Some(d) => d,
            None => n,
        };
        let ghost digits = num_digits(tv);
        proof {
            if dot is None {
                assert(find_char(rest, '.', 0) == find_char(rest, '.', rest.len()));
                assert(find_char(rest, '.', rest.len()) == -1);
            }
            assert(digits =~= tv.subrange(start as int, dend as int));
        }
        // the digit run must be one to eighteen digits
        if dend <= start || dend - start > 18 {
            return None;
        }
        let mut acc: u64 = 0;
        let mut k = start;
        proof {
            lemma_pow10_18();
        }
        while k < dend
            invariant
                start <= k <= dend <= n,
                n == tv.len(),
                dend - start <= 18,
                digits == tv.subrange(start as int, dend as int),
                forall|j: int| start <= j < k ==> is_digit(tv[j]),
                acc as int == dec_val(tv.subrange(start as int, k as int)),
                (acc as int) < pow10((k - start) as nat),
                pow10(18) == 1000000000000000000,
            decreases dend - k,
        {
            let c = cs[k];
            let cu = c as u32;
            if !('0' as u32 <= cu && cu <= '9' as u32) {
                proof {
                    assert(self@ == Val::Num(tv));
                    assert(digits[(k - start) as int] == tv[k as int]);
                    assert(!is_digit(digits[(k - start) as int]));
                    assert(num_int_of(tv) is None);
                }
                return None;
            }
            let d = (cu - 48) as u64;
            proof {
                assert(pow10((k + 1 - start) as nat) == 10 * pow10((k - start) as nat));
                assert(pow10((k - start) as nat) <= pow10(17)) by {
                    lemma_pow10_mono((k - start) as nat, 17);
                }
                assert(acc as int * 10 + d < pow10((k + 1 - start) as nat)) by (
                nonlinear_arith)
                    requires
                        (acc as int) < pow10((k - start) as nat),
                        0 <= d < 10,
                        pow10((k + 1 - start) as nat) == 10 * pow10((k - start) as nat),
                        0 <= acc,
                ;
                assert(pow10((k + 1 - start) as nat) <= pow10(18)) by {
                    lemma_pow10_mono((k + 1 - start) as nat, 18);
                }
                let pre = tv.subrange(start as int, (k + 1) as int);
                assert(pre.drop_last() =~= tv.subrange(start as int, k as int));
                assert(pre.last() == tv[k as int]);
            }
            acc = acc * 10 + d;
            k += 1;
        }
        proof {
            assert(tv.subrange(start as int, dend as int) == digits);
        }
        // every fractional character must be a digit
        let mut f: usize = dend;
        let ghost frac = num_frac(tv);
        if dend < n {
            f = dend + 1;
            proof {
                assert(frac =~= tv.subrange((dend + 1) as int, tv.len() as int));
            }
            let mut w = f;
            while w < n
                invariant
                    f <= w <= n,
                    n == tv.len(),
                    f == dend + 1,
                    frac == tv.subrange(f as int, tv.len() as int),
                    forall|j: int| f <= j < w ==> is_digit(tv[j]),
                decreases n - w,
            {
                let c = cs[w];
                let cu = c as u32;
                if !('0' as u32 <= cu && cu <= '9' as u32) {
                    proof {
                        assert(self@ == Val::Num(tv));
                        assert(frac[(w - f) as int] == tv[w as int]);
                        assert(!is_digit(frac[(w - f) as int]));
                        assert(num_int_of(tv) is None);
                    }
                    return None;
                }
                w += 1;
            }
            proof {
                assert(forall|j: int|
                    0 <= j < frac.len() ==> is_digit(#[trigger] frac[j]));
            }
        }
        proof {
            assert(acc as int == dec_val(digits));
            lemma_dec_val_bound(digits);
            lemma_pow10_mono(digits.len(), 18);
        }
        if neg {
            let signed = -(acc as i64);
            Some(signed)
        } else {
            Some(acc as i64)
        }
    }
}

proof fn lemma_pow10_mono(a: nat, b: nat)
    requires
        a <= b,
    ensures
        pow10(a) <= pow10(b),
    decreases b,
{
    if a < b {
        lemma_pow10_mono(a, (b - 1) as nat);
        assert(pow10(b) == 10 * pow10((b - 1) as nat));
        assert(pow10((b - 1) as nat) >= 1) by {
            lemma_pow10_pos((b - 1) as nat);
        }
    }
}

proof fn lemma_pow10_pos(n: nat)
    ensures
        pow10(n) >= 1,
    decreases n,
{
    if n > 0 {
        lemma_pow10_pos((n - 1) as nat);
    }
}

} // verus!

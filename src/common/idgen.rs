use vstd::prelude::*;
use vstd::string::StrSliceExecFns;

verus! {

/// The character of one base-36 digit: `0`-`9`, then `a`-`z`.
pub open spec fn base36_digit(d: nat) -> char {
    if d < 10 {
        (48 + d) as char
    } else {
        (87 + d) as char
    }
}

/// Base-36 text of `n`: lower-case digits, most significant first, `"0"` for zero.
pub open spec fn base36(n: nat) -> Seq<char>
    decreases n,
{
    if n < 36 {
        seq![base36_digit(n)]
    } else {
        base36(n / 36).push(base36_digit(n % 36))
    }
}

/// The value of one base-36 digit, either case.
pub open spec fn digit_value(c: char) -> Option<nat> {
    if '0' <= c && c <= '9' {
        Some((c as nat - 48) as nat)
    } else if 'a' <= c && c <= 'z' {
        Some((c as nat - 87) as nat)
    } else if 'A' <= c && c <= 'Z' {
        Some((c as nat - 55) as nat)
    } else {
        None
    }
}

/// The number that a string of base-36 digits spells, most significant first;
/// `None` if some character is not a digit.
pub open spec fn digits_value(s: Seq<char>) -> Option<nat>
    decreases s.len(),
{
    if s.len() == 0 {
        Some(0)
    } else {
        match (digits_value(s.drop_last()), digit_value(s.last())) {
            (Some(v), Some(d)) => Some(v * 36 + d),
            _ => None,
        }
    }
}

/// What base-36 text reads as: an optional `+`, then at least one digit.
pub open spec fn base36_parse(s: Seq<char>) -> Option<nat> {
    let body = if s.len() > 0 && s[0] == '+' {
        s.drop_first()
    } else {
        s
    };
    if body.len() == 0 {
        None
    } else {
        digits_value(body)
    }
}

proof fn lemma_digits_grow(s: Seq<char>, k: int)
    requires
        0 <= k <= s.len(),
        digits_value(s) is Some,
    ensures
        digits_value(s.subrange(0, k)) is Some,
        digits_value(s.subrange(0, k))->0 <= digits_value(s)->0,
    decreases s.len(),
{
    if k < s.len() {
        assert(s.drop_last().subrange(0, k) =~= s.subrange(0, k));
        lemma_digits_grow(s.drop_last(), k);
    } else {
        assert(s.subrange(0, k) =~= s);
    }
}

proof fn lemma_digit_value(d: nat)
    requires
        d < 36,
    ensures
        digit_value(base36_digit(d)) == Some(d),
        base36_digit(d) != '+',
{
    if d < 10 {
        assert(((48 + d) as char) as nat == 48 + d);
    } else {
        assert(((87 + d) as char) as nat == 87 + d);
    }
}

proof fn lemma_digits_of_base36(n: nat)
    ensures
        digits_value(base36(n)) == Some(n),
        base36(n).len() > 0,
        base36(n)[0] != '+',
    decreases n,
{
    if n < 36 {
        lemma_digit_value(n);
        assert(base36(n) == seq![base36_digit(n)]);
        assert(base36(n).drop_last() =~= Seq::<char>::empty());
        assert(digits_value(Seq::<char>::empty()) == Some(0nat));
        assert(base36(n).last() == base36_digit(n));
    } else {
        lemma_digits_of_base36(n / 36);
        lemma_digit_value(n % 36);
        let s = base36(n);
        assert(s == base36(n / 36).push(base36_digit(n % 36)));
        assert(s.drop_last() =~= base36(n / 36));
        assert(s.last() == base36_digit(n % 36));
        assert(s[0] == base36(n / 36)[0]);
        assert(n == (n / 36) * 36 + n % 36) by (nonlinear_arith);
    }
}

/// Reading the base-36 text of a number gives the number back.
pub proof fn lemma_base36_round_trip(n: nat)
    ensures
        base36_parse(base36(n)) == Some(n),
{
    lemma_digits_of_base36(n);
}

/// Reads base-36 text (optional `+`, then digits of either case) into a number;
/// `None` for anything else and for values above `u64::MAX`.
pub fn parse_base36(s: &str) -> (r: Option<u64>)
    ensures
        r is Some <==> (base36_parse(s@) matches Some(n) && n <= u64::MAX),
        r matches Some(v) ==> base36_parse(s@) == Some(v as nat),
{
    let len = s.unicode_len();
    let mut start: usize = 0;
    if len > 0 && s.get_char(0) == '+' {
        start = 1;
    }
    let ghost body = if s@.len() > 0 && s@[0] == '+' {
        s@.drop_first()
    } else {
        s@
    };
    assert(body =~= s@.subrange(start as int, s@.len() as int));
    if start >= len {
        return None;
    }
    let mut v: u64 = 0;
    let mut i: usize = start;
    while i < len
        invariant
            start <= i <= len,
            len == s@.len(),
            body == s@.subrange(start as int, len as int),
            body == (if s@.len() > 0 && s@[0] == '+' {
                s@.drop_first()
            } else {
                s@
            }),
            body.len() > 0,
            digits_value(body.subrange(0, i - start)) == Some(v as nat),
        decreases len - i,
    {
        let c = s.get_char(i);
        let d: u64 = if '0' <= c && c <= '9' {
            (c as u64) - 48
        } else if 'a' <= c && c <= 'z' {
            (c as u64) - 87
        } else if 'A' <= c && c <= 'Z' {
            (c as u64) - 55
        } else {
            proof {
                let pre = body.subrange(0, i + 1 - start);
                assert(pre.last() == c);
                assert(digit_value(c) is None);
                assert(digits_value(pre) is None);
                if digits_value(body) is Some {
                    lemma_digits_grow(body, i + 1 - start);
                }
                assert(digits_value(body) is None);
            }
            return None;
        };
        assert(digit_value(c) == Some(d as nat));
        assert(body.subrange(0, i + 1 - start).last() == c);
        assert(body.subrange(0, i + 1 - start).drop_last() =~= body.subrange(0, i - start));
        if v > (u64::MAX - d) / 36 {
            proof {
                assert(v * 36 + d > u64::MAX) by (nonlinear_arith)
                    requires
                        v > (u64::MAX - d) / 36,
                        d < 36,
                ;
                let pre = body.subrange(0, i + 1 - start);
                assert(pre.drop_last() =~= body.subrange(0, i - start));
                assert(digits_value(pre) == Some((v * 36 + d) as nat));
                if digits_value(body) is Some {
                    lemma_digits_grow(body, i + 1 - start);
                }
            }
            return None;
        }
        assert(v * 36 + d <= u64::MAX) by (nonlinear_arith)
            requires
                v <= (u64::MAX - d) / 36,
                d < 36,
        ;
        v = v * 36 + d;
        i = i + 1;
    }
    assert(body.subrange(0, i - start) =~= body);
    Some(v)
}

/// Relies on radix_fmt::radix with base 36, shown through `Display`: lower-case
/// digits, most significant first, a single `0` for zero.
#[verifier::external_body]
fn base36_text(n: u64) -> (r: String)
    ensures
        r@ == base36(n as nat),
{
    radix_fmt::radix(n, 36).to_string()
}

/// Numbers of a sequence of pane identifiers.
pub open spec fn pane_numbers(s: Seq<PaneId>) -> Seq<u64> {
    s.map_values(|p: PaneId| p@)
}

/// Numbers of a sequence of window identifiers.
pub open spec fn window_numbers(s: Seq<WindowId>) -> Seq<u64> {
    s.map_values(|w: WindowId| w@)
}

/// Numbers of a sequence of session identifiers.
pub open spec fn session_numbers(s: Seq<SessionId>) -> Seq<u64> {
    s.map_values(|x: SessionId| x@)
}

/// Numbers of a sequence of peer identifiers.
pub open spec fn peer_numbers(s: Seq<PeerId>) -> Seq<u64> {
    s.map_values(|x: PeerId| x@)
}

/// Identifier of a session: a non-zero 64-bit number.
#[derive(Clone, Copy, PartialEq, Eq, Structural, PartialOrd, Ord, Hash, Debug)]
pub struct SessionId {
    raw: u64,
}

/// Identifier of a window: a non-zero 64-bit number.
#[derive(Clone, Copy, PartialEq, Eq, Structural, PartialOrd, Ord, Hash, Debug)]
pub struct WindowId {
    raw: u64,
}

/// Identifier of a pane: a non-zero 64-bit number.
#[derive(Clone, Copy, PartialEq, Eq, Structural, PartialOrd, Ord, Hash, Debug)]
pub struct PaneId {
    raw: u64,
}

/// Identifier of a peer (one client connection): a non-zero 64-bit number.
#[derive(Clone, Copy, PartialEq, Eq, Structural, PartialOrd, Ord, Hash, Debug)]
pub struct PeerId {
    raw: u64,
}

impl View for SessionId {
    type V = u64;

    closed spec fn view(&self) -> u64 {
        self.raw
    }
}

impl View for WindowId {
    type V = u64;

    closed spec fn view(&self) -> u64 {
        self.raw
    }
}

impl View for PaneId {
    type V = u64;

    closed spec fn view(&self) -> u64 {
        self.raw
    }
}

impl View for PeerId {
    type V = u64;

    closed spec fn view(&self) -> u64 {
        self.raw
    }
}

impl SessionId {
    #[verifier::type_invariant]
    spec fn nonzero(self) -> bool {
        self.raw != 0
    }

    /// The identifier with number `raw`, or `None` for zero.
    pub fn new(raw: u64) -> (r: Option<Self>)
        ensures
            r is Some <==> raw != 0,
            r matches Some(id) ==> id@ == raw,
    {
        if raw == 0 {
            None
        } else {
            Some(SessionId { raw })
        }
    }

    /// The identifier with number `raw`, known to be non-zero.
    pub fn from_nonzero(raw: u64) -> (r: Self)
        requires
            raw != 0,
        ensures
            r@ == raw,
    {
        SessionId { raw }
    }

    pub fn get(self) -> (r: u64)
        ensures
            r == self@,
            r != 0,
    {
        proof {
            use_type_invariant(&self);
        }
        self.raw
    }

    /// The compact human form: the number in base 36.
    pub fn to_string(&self) -> (r: String)
        ensures
            r@ == base36(self@ as nat),
    {
        base36_text(self.raw)
    }

    /// Reads the compact human form back; zero and malformed text give `None`.
    pub fn parse(s: &str) -> (r: Option<Self>)
        ensures
            r is Some <==> (base36_parse(s@) matches Some(n) && 0 < n <= u64::MAX),
            r matches Some(id) ==> base36_parse(s@) == Some(id@ as nat),
    {
        match parse_base36(s) {
            Some(v) => SessionId::new(v),
            None => None,
        }
    }
}

impl WindowId {
    #[verifier::type_invariant]
    spec fn nonzero(self) -> bool {
        self.raw != 0
    }

    /// The identifier with number `raw`, or `None` for zero.
    pub fn new(raw: u64) -> (r: Option<Self>)
        ensures
            r is Some <==> raw != 0,
            r matches Some(id) ==> id@ == raw,
    {
        if raw == 0 {
            None
        } else {
            Some(WindowId { raw })
        }
    }

    /// The identifier with number `raw`, known to be non-zero.
    pub fn from_nonzero(raw: u64) -> (r: Self)
        requires
            raw != 0,
        ensures
            r@ == raw,
    {
        WindowId { raw }
    }

    pub fn get(self) -> (r: u64)
        ensures
            r == self@,
            r != 0,
    {
        proof {
            use_type_invariant(&self);
        }
        self.raw
    }

    /// The compact human form: the number in base 36.
    pub fn to_string(&self) -> (r: String)
        ensures
            r@ == base36(self@ as nat),
    {
        base36_text(self.raw)
    }

    /// Reads the compact human form back; zero and malformed text give `None`.
    pub fn parse(s: &str) -> (r: Option<Self>)
        ensures
            r is Some <==> (base36_parse(s@) matches Some(n) && 0 < n <= u64::MAX),
            r matches Some(id) ==> base36_parse(s@) == Some(id@ as nat),
    {
        match parse_base36(s) {
            Some(v) => WindowId::new(v),
            None => None,
        }
    }
}

impl PaneId {
    #[verifier::type_invariant]
    spec fn nonzero(self) -> bool {
        self.raw != 0
    }

    /// The identifier with number `raw`, or `None` for zero.
    pub fn new(raw: u64) -> (r: Option<Self>)
        ensures
            r is Some <==> raw != 0,
            r matches Some(id) ==> id@ == raw,
    {
        if raw == 0 {
            None
        } else {
            Some(PaneId { raw })
        }
    }

    /// The identifier with number `raw`, known to be non-zero.
    pub fn from_nonzero(raw: u64) -> (r: Self)
        requires
            raw != 0,
        ensures
            r@ == raw,
    {
        PaneId { raw }
    }

    pub fn get(self) -> (r: u64)
        ensures
            r == self@,
            r != 0,
    {
        proof {
            use_type_invariant(&self);
        }
        self.raw
    }

    /// The compact human form: the number in base 36.
    pub fn to_string(&self) -> (r: String)
        ensures
            r@ == base36(self@ as nat),
    {
        base36_text(self.raw)
    }

    /// Reads the compact human form back; zero and malformed text give `None`.
    pub fn parse(s: &str) -> (r: Option<Self>)
        ensures
            r is Some <==> (base36_parse(s@) matches Some(n) && 0 < n <= u64::MAX),
            r matches Some(id) ==> base36_parse(s@) == Some(id@ as nat),
    {
        match parse_base36(s) {
            Some(v) => PaneId::new(v),
            None => None,
        }
    }
}

impl PeerId {
    #[verifier::type_invariant]
    spec fn nonzero(self) -> bool {
        self.raw != 0
    }

    /// The identifier with number `raw`, or `None` for zero.
    pub fn new(raw: u64) -> (r: Option<Self>)
        ensures
            r is Some <==> raw != 0,
            r matches Some(id) ==> id@ == raw,
    {
        if raw == 0 {
            None
        } else {
            Some(PeerId { raw })
        }
    }

    /// The identifier with number `raw`, known to be non-zero.
    pub fn from_nonzero(raw: u64) -> (r: Self)
        requires
            raw != 0,
        ensures
            r@ == raw,
    {
        PeerId { raw }
    }

    pub fn get(self) -> (r: u64)
        ensures
            r == self@,
            r != 0,
    {
        proof {
            use_type_invariant(&self);
        }
        self.raw
    }

    /// The compact human form: the number in base 36.
    pub fn to_string(&self) -> (r: String)
        ensures
            r@ == base36(self@ as nat),
    {
        base36_text(self.raw)
    }

    /// Reads the compact human form back; zero and malformed text give `None`.
    pub fn parse(s: &str) -> (r: Option<Self>)
        ensures
            r is Some <==> (base36_parse(s@) matches Some(n) && 0 < n <= u64::MAX),
            r matches Some(id) ==> base36_parse(s@) == Some(id@ as nat),
    {
        match parse_base36(s) {
            Some(v) => PeerId::new(v),
            None => None,
        }
    }
}

} // verus!

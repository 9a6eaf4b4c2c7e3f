//! Hierarchical addresses of the triangles of the fractal.
//!
//! An address is the path from the genesis triangle down to a triangle: one
//! digit per level, each between 0 and 3. Digits 0 to 2 name the three
//! children a subdivision makes, digit 3 the void in their middle. The empty
//! path is the genesis triangle itself.

use vstd::prelude::*;
use vstd::string::*;
use crate::errors::{SierpinskiError, SierpinskiResult};

verus! {

/// The largest digit of an address.
pub const MAX_DIGIT: u8 = 3;

/// The longest path whose position index fits in 64 bits.
pub const MAX_INDEXED_DEPTH: usize = 32;

/// Whether every digit of `path` is between 0 and 3.
pub open spec fn valid_path(path: Seq<u8>) -> bool {
    forall|i: int| 0 <= i < path.len() ==> #[trigger] path[i] <= MAX_DIGIT
}

/// The first position of `path` that holds a digit above 3, or the length of
/// the path where there is none.
pub open spec fn first_invalid(path: Seq<u8>) -> int
    decreases path.len(),
{
    if path.len() == 0 {
        0
    } else if path[0] > MAX_DIGIT {
        0
    } else {
        1 + first_invalid(path.drop_first())
    }
}

/// Whether `prefix` is the beginning of `path`.
pub open spec fn is_prefix(prefix: Seq<u8>, path: Seq<u8>) -> bool {
    prefix.len() <= path.len() && path.subrange(0, prefix.len() as int) == prefix
}

/// The number of leading positions on which two paths agree.
pub open spec fn common_length(a: Seq<u8>, b: Seq<u8>) -> nat
    decreases a.len(),
{
    if a.len() > 0 && b.len() > 0 && a[0] == b[0] {
        1 + common_length(a.drop_first(), b.drop_first())
    } else {
        0
    }
}

/// The path read as a number in base 4. The last digit, the deepest one, is
/// the least significant; the first digit carries the greatest weight.
pub open spec fn position_value(path: Seq<u8>) -> nat
    decreases path.len(),
{
    if path.len() == 0 {
        0
    } else {
        4 * position_value(path.drop_last()) + path.last() as nat
    }
}

/// Four to the power `n`.
pub open spec fn pow4(n: nat) -> nat
    decreases n,
{
    if n == 0 {
        1
    } else {
        4 * pow4((n - 1) as nat)
    }
}

/// The `i`-th of the three digits other than `own`, in ascending order.
pub open spec fn sibling_digit(own: u8, i: int) -> u8 {
    if i < own as int {
        i as u8
    } else {
        (i + 1) as u8
    }
}

/// The character that stands for a digit in the text of an address.
pub open spec fn digit_char(d: u8) -> char {
    if d == 0 {
        '0'
    } else if d == 1 {
        '1'
    } else if d == 2 {
        '2'
    } else {
        '3'
    }
}

/// The digits of a path, separated by dots.
pub open spec fn joined(path: Seq<u8>) -> Seq<char>
    decreases path.len(),
{
    if path.len() == 0 {
        Seq::<char>::empty()
    } else if path.len() == 1 {
        seq![digit_char(path[0])]
    } else {
        joined(path.drop_last()) + seq!['.', digit_char(path.last())]
    }
}

/// The text of an address: `genesis` for the empty path, and otherwise the
/// digits separated by dots.
pub open spec fn address_text(path: Seq<u8>) -> Seq<char> {
    if path.len() == 0 {
        "genesis"@
    } else {
        joined(path)
    }
}

/// Whether `c` is one of the characters `0` to `3`.
pub open spec fn is_address_digit(c: char) -> bool {
    c == '0' || c == '1' || c == '2' || c == '3'
}

/// The value of one of the characters `0` to `3`.
pub open spec fn digit_value(c: char) -> u8 {
    if c == '0' {
        0
    } else if c == '1' {
        1
    } else if c == '2' {
        2
    } else {
        3
    }
}

/// A token without the plus sign it may begin with.
pub open spec fn strip_plus(token: Seq<char>) -> Seq<char> {
    if token.len() > 0 && token[0] == '+' {
        token.skip(1)
    } else {
        token
    }
}

/// The digit that a run of decimal digits stands for: any number of zeros,
/// then one of the digits 0 to 3. Anything else stands for no digit.
pub open spec fn parse_digits(digits: Seq<char>) -> Option<u8> {
    if digits.len() > 0 && is_address_digit(digits.last()) && (forall|i: int|
        0 <= i < digits.len() - 1 ==> #[trigger] digits[i] == '0') {
        Some(digit_value(digits.last()))
    } else {
        None
    }
}

/// The digit a token stands for. A token is read as a decimal number: an
/// optional `+`, then a run of digits that stands for a digit of an address.
pub open spec fn parse_token(token: Seq<char>) -> Option<u8> {
    parse_digits(strip_plus(token))
}

/// The position of the last dot in `text`, or -1 where it holds none.
pub open spec fn last_dot(text: Seq<char>) -> int
    decreases text.len(),
{
    if text.len() == 0 {
        -1
    } else if text.last() == '.' {
        text.len() - 1
    } else {
        last_dot(text.drop_last())
    }
}

/// The path a dotted text stands for: the text is cut at its dots, and every
/// piece must be a token. `None` where a piece is not.
pub open spec fn parse_path(text: Seq<char>) -> Option<Seq<u8>>
    decreases text.len(),
{
    let k = last_dot(text);
    if 0 <= k < text.len() {
        match (parse_path(text.subrange(0, k)), parse_token(text.skip(k + 1))) {
            (Some(init), Some(d)) => Some(init.push(d)),
            _ => None,
        }
    } else {
        match parse_token(text) {
            Some(d) => Some(seq![d]),
            None => None,
        }
    }
}

/// The path a text stands for: the empty path for `genesis`, and otherwise
/// what [`parse_path`] reads.
pub open spec fn parse_address(text: Seq<char>) -> Option<Seq<u8>> {
    if text == "genesis"@ {
        Some(Seq::<u8>::empty())
    } else {
        parse_path(text)
    }
}

/// The path of `depth` digits whose position index is `index`.
pub open spec fn path_of_index(index: nat, depth: nat) -> Seq<u8>
    decreases depth,
{
    if depth == 0 {
        Seq::<u8>::empty()
    } else {
        path_of_index(index / 4, (depth - 1) as nat).push((index % 4) as u8)
    }
}

/// The address of a triangle in the fractal.
#[derive(Debug, PartialEq, Eq, Hash)]
pub struct TriangleAddress {
    path: Vec<u8>,
}

impl View for TriangleAddress {
    type V = Seq<u8>;

    closed spec fn view(&self) -> Seq<u8> {
        self.path@
    }
}

impl Clone for TriangleAddress {
    fn clone(&self) -> (r: TriangleAddress)
        ensures
            r@ == self@,
    {
        proof {
            use_type_invariant(self);
        }
        let path = self.path.clone();
        assert(path@ =~= self.path@);
        TriangleAddress { path }
    }
}

impl TriangleAddress {
    #[verifier::type_invariant]
    spec fn digits_in_range(self) -> bool {
        valid_path(self.path@)
    }

    /// The address with the given path.
    ///
    /// Fails with `AddressComponentOutOfRange` where a digit is above 3; the
    /// error carries the first such digit.
    pub fn new(path: Vec<u8>) -> (r: SierpinskiResult<TriangleAddress>)
        ensures
            valid_path(path@) ==> (r matches Ok(a) && a@ == path@),
            !valid_path(path@) ==> (r matches Err(SierpinskiError::AddressComponentOutOfRange { component })
                && 0 <= first_invalid(path@) < path@.len() && component == path@[first_invalid(path@)]),
    {
        let mut i: usize = 0;
        assert(path@.skip(0) =~= path@);
        while i < path.len()
            invariant
                i <= path.len(),
                forall|k: int| 0 <= k < i ==> #[trigger] path@[k] <= MAX_DIGIT,
                first_invalid(path@) == i + first_invalid(path@.skip(i as int)),
            decreases path.len() - i,
        {
            let component = path[i];
            assert(path@.skip(i as int)[0] == component);
            if component > MAX_DIGIT {
                return Err(SierpinskiError::AddressComponentOutOfRange { component });
            }
            assert(path@.skip(i as int).drop_first() =~= path@.skip(i + 1));
            i = i + 1;
        }
        Ok(TriangleAddress { path })
    }

    /// The address of the genesis triangle: the empty path.
    pub fn genesis() -> (r: TriangleAddress)
        ensures
            r@ == Seq::<u8>::empty(),
    {
        TriangleAddress { path: Vec::new() }
    }

    /// The address one level down, reached by `component`.
    ///
    /// Fails with `AddressComponentOutOfRange` where `component` is above 3.
    pub fn child(&self, component: u8) -> (r: SierpinskiResult<TriangleAddress>)
        ensures
            component <= MAX_DIGIT ==> (r matches Ok(a) && a@ == self@.push(component)),
            component > MAX_DIGIT ==> r == Err::<TriangleAddress, SierpinskiError>(
                SierpinskiError::AddressComponentOutOfRange { component },
            ),
    {
        if component > MAX_DIGIT {
            return Err(SierpinskiError::AddressComponentOutOfRange { component });
        }
        proof {
            use_type_invariant(self);
        }
        let mut path = self.path.clone();
        assert(path@ =~= self.path@);
        path.push(component);
        Ok(TriangleAddress { path })
    }

    /// The address one level up; the genesis address has none.
    pub fn parent(&self) -> (r: Option<TriangleAddress>)
        ensures
            self@.len() == 0 ==> r is None,
            self@.len() > 0 ==> (r matches Some(p) && p@ == self@.drop_last()),
    {
        if self.path.len() == 0 {
            None
        } else {
            proof {
                use_type_invariant(self);
            }
            let mut path = self.path.clone();
            assert(path@ =~= self.path@);
            path.pop();
            assert(path@ =~= self@.drop_last());
            Some(TriangleAddress { path })
        }
    }

    /// The depth: the length of the path, as far as eight bits hold it.
    pub fn depth(&self) -> (d: u8)
        ensures
            d as int == self@.len() % 256,
            self@.len() < 256 ==> d as int == self@.len(),
    {
        let len = self.path.len();
        let d = #[verifier::truncate] (len as u8);
        assert(d as int == len as int % 256) by (bit_vector)
            requires
                d == #[verifier::truncate] (len as u8),
        ;
        d
    }

    /// Whether this is the genesis address.
    pub fn is_genesis(&self) -> (r: bool)
        ensures
            r == (self@.len() == 0),
    {
        self.path.len() == 0
    }

    /// Whether this address lies directly below `other`.
    pub fn is_child_of(&self, other: &TriangleAddress) -> (r: bool)
        ensures
            r == (self@.len() > 0 && self@.drop_last() == other@),
    {
        let own_len = self.path.len();
        let other_len = other.path.len();
        if other_len == usize::MAX || own_len != other_len + 1 {
            proof {
                if self@.len() > 0 {
                    assert(self@.drop_last().len() == self@.len() - 1);
                }
            }
            return false;
        }
        let r = starts_with(&self.path, &other.path);
        proof {
            assert(self@.drop_last() =~= self@.subrange(0, other@.len() as int));
        }
        r
    }

    /// Whether this address lies above `other`: whether it is a beginning of
    /// `other` and shorter.
    pub fn is_ancestor_of(&self, other: &TriangleAddress) -> (r: bool)
        ensures
            r == (self@.len() < other@.len() && is_prefix(self@, other@)),
    {
        if self.path.len() >= other.path.len() {
            return false;
        }
        starts_with(&other.path, &self.path)
    }

    /// Whether the address names a void: whether its last digit is 3.
    pub fn is_void(&self) -> (r: bool)
        ensures
            r == (self@.len() > 0 && self@.last() == 3),
    {
        let len = self.path.len();
        len > 0 && self.path[len - 1] == 3
    }

    /// The last digit; the genesis address has none.
    pub fn last_component(&self) -> (r: Option<u8>)
        ensures
            r == if self@.len() > 0 {
                Some(self@.last())
            } else {
                None
            },
            r matches Some(d) ==> d <= MAX_DIGIT,
    {
        proof {
            use_type_invariant(self);
        }
        let len = self.path.len();
        if len > 0 {
            Some(self.path[len - 1])
        } else {
            None
        }
    }

    /// The digits of the path, each between 0 and 3.
    pub fn components(&self) -> (r: &[u8])
        ensures
            r@ == self@,
            valid_path(r@),
    {
        proof {
            use_type_invariant(self);
        }
        self.path.as_slice()
    }

    /// Whether the two addresses are the same.
    pub fn same_as(&self, other: &TriangleAddress) -> (r: bool)
        ensures
            r == (self@ == other@),
    {
        if self.path.len() != other.path.len() {
            return false;
        }
        let r = starts_with(&self.path, &other.path);
        proof {
            assert(self@.subrange(0, other@.len() as int) =~= self@);
        }
        r
    }

    /// The text of the address: `genesis`, or the digits separated by dots.
    pub fn to_string_representation(&self) -> (r: String)
        ensures
            r@ == address_text(self@),
    {
        proof {
            use_type_invariant(self);
        }
        if self.path.len() == 0 {
            return "genesis".to_owned();
        }
        let mut text = String::new();
        let mut i: usize = 0;
        while i < self.path.len()
            invariant
                i <= self.path.len(),
                valid_path(self.path@),
                text@ == joined(self@.subrange(0, i as int)),
            decreases self.path.len() - i,
        {
            let ghost before = text@;
            if i > 0 {
                text.append(".");
            }
            let digit = self.path[i];
            text.append(digit_text(digit));
            proof {
                reveal_strlit(".");
                let next = self@.subrange(0, i + 1);
                assert(next.drop_last() =~= self@.subrange(0, i as int));
                assert(next.last() == digit);
                if i > 0 {
                    assert(text@ =~= before + seq!['.', digit_char(digit)]);
                } else {
                    assert(text@ =~= seq![digit_char(digit)]);
                }
            }
            i = i + 1;
        }
        assert(self@.subrange(0, i as int) =~= self@);
        text
    }

    /// The address a text stands for.
    ///
    /// `genesis` is the genesis address. Any other text is cut at its dots,
    /// and every piece must be a decimal number between 0 and 3. Fails with
    /// `InvalidAddress`, which carries the text, where a piece is not.
    pub fn from_string_representation(s: &str) -> (r: SierpinskiResult<TriangleAddress>)
        ensures
            match parse_address(s@) {
                Some(path) => r matches Ok(a) && a@ == path,
                None => r matches Err(SierpinskiError::InvalidAddress { address }) && address@ == s@,
            },
    {
        let owned = s.to_owned();
        if owned == "genesis".to_owned() {
            return Ok(TriangleAddress::genesis());
        }
        if !s.is_ascii() {
            proof {
                if parse_path(s@) is Some {
                    lemma_parsed_text_is_plain(s@);
                    lemma_plain_text_is_ascii(s@);
                }
            }
            return Err(SierpinskiError::InvalidAddress { address: owned });
        }
        let n = s.unicode_len();
        let mut path: Vec<u8> = Vec::new();
        let mut start: usize = 0;
        loop
            invariant
                n == s@.len(),
                s.is_ascii(),
                owned@ == s@,
                s@ != "genesis"@,
                start <= n,
                start > 0 ==> s@[start - 1] == '.' && parse_path(s@.subrange(0, start - 1)) == Some(path@),
                start == 0 ==> path@.len() == 0,
                valid_path(path@),
            decreases n - start,
        {
            let mut end = start;
            while end < n && s.get_ascii(end) != 46
                invariant
                    n == s@.len(),
                    s.is_ascii(),
                    start <= end <= n,
                    forall|k: int| start <= k < end ==> #[trigger] s@[k] != '.',
                decreases n - end,
            {
                end = end + 1;
            }
            let ghost head = s@.subrange(0, end as int);
            let ghost token = s@.subrange(start as int, end as int);
            proof {
                assert(end < n ==> s@[end as int] == '.');
                lemma_last_dot_before_token(s@, start as int, end as int);
                assert(head.skip(start as int) =~= token);
                if start > 0 {
                    assert(head.subrange(0, start - 1) =~= s@.subrange(0, start - 1));
                }
            }
            let digit = match read_token(s, start, end) {
                Some(d) => d,
                None => {
                    proof {
                        assert(parse_path(head) is None);
                        lemma_failure_spreads(s@, end as int);
                    }
                    return Err(SierpinskiError::InvalidAddress { address: owned });
                },
            };
            let ghost before = path@;
            path.push(digit);
            proof {
                assert(parse_path(head) == Some(path@)) by {
                    if start == 0 {
                        assert(path@ =~= seq![digit]);
                    }
                }
                assert(valid_path(path@)) by {
                    assert forall|k: int| 0 <= k < path@.len() implies #[trigger] path@[k] <= MAX_DIGIT by {
                        if k < before.len() {
                            assert(path@[k] == before[k]);
                        }
                    }
                }
            }
            if end == n {
                assert(head =~= s@);
                return Ok(TriangleAddress { path });
            }
            start = end + 1;
        }
    }

    /// The other three addresses below this one's parent, in the order of
    /// their last digits. The genesis address has no siblings.
    pub fn siblings(&self) -> (r: Vec<TriangleAddress>)
        ensures
            self@.len() == 0 ==> r@.len() == 0,
            self@.len() > 0 ==> r@.len() == 3 && forall|i: int|
                0 <= i < 3 ==> (#[trigger] r@[i])@ == self@.drop_last().push(
                    sibling_digit(self@.last(), i),
                ),
            forall|i: int| 0 <= i < r@.len() ==> (#[trigger] r@[i])@ != self@,
    {
        let mut siblings: Vec<TriangleAddress> = Vec::new();
        let len = self.path.len();
        if len == 0 {
            return siblings;
        }
        proof {
            use_type_invariant(self);
        }
        let own = self.path[len - 1];
        let mut component: u8 = 0;
        while component <= MAX_DIGIT
            invariant
                component <= MAX_DIGIT + 1,
                len == self.path.len(),
                len > 0,
                own == self@.last(),
                own <= MAX_DIGIT,
                valid_path(self.path@),
                siblings@.len() == (if component <= own { component as int } else { component - 1 }),
                forall|i: int|
                    0 <= i < siblings@.len() ==> (#[trigger] siblings@[i])@ == self@.drop_last().push(
                        sibling_digit(own, i),
                    ),
            decreases MAX_DIGIT + 1 - component,
        {
            if component != own {
                let mut path = self.path.clone();
                assert(path@ =~= self.path@);
                path.pop();
                path.push(component);
                assert(path@ =~= self@.drop_last().push(component));
                assert(valid_path(path@)) by {
                    assert forall|k: int| 0 <= k < path@.len() implies #[trigger] path@[k] <= MAX_DIGIT by {
                        if k < path@.len() - 1 {
                            assert(path@[k] == self.path@[k]);
                        }
                    }
                }
                siblings.push(TriangleAddress { path });
            }
            component = component + 1;
        }
        proof {
            lemma_family(self@);
        }
        siblings
    }

    /// The four addresses directly below this one, in the order of their
    /// last digits.
    pub fn children(&self) -> (r: Vec<TriangleAddress>)
        ensures
            r@.len() == 4,
            forall|i: int| 0 <= i < 4 ==> (#[trigger] r@[i])@ == self@.push(i as u8),
    {
        let mut children: Vec<TriangleAddress> = Vec::new();
        let mut component: u8 = 0;
        while component <= MAX_DIGIT
            invariant
                component <= MAX_DIGIT + 1,
                children@.len() == component,
                forall|i: int| 0 <= i < children@.len() ==> (#[trigger] children@[i])@ == self@.push(i as u8),
            decreases MAX_DIGIT + 1 - component,
        {
            match self.child(component) {
                Ok(child) => {
                    children.push(child);
                },
                Err(_) => {},
            }
            component = component + 1;
        }
        children
    }

    /// The path read as a number in base 4, the last digit being the least
    /// significant one.
    pub fn position_index(&self) -> (r: u64)
        requires
            self@.len() <= MAX_INDEXED_DEPTH,
        ensures
            r == position_value(self@),
    {
        proof {
            use_type_invariant(self);
        }
        let mut index: u64 = 0;
        let mut i: usize = 0;
        while i < self.path.len()
            invariant
                i <= self.path.len(),
                self.path.len() <= MAX_INDEXED_DEPTH,
                valid_path(self.path@),
                index == position_value(self@.subrange(0, i as int)),
                index < pow4(i as nat),
            decreases self.path.len() - i,
        {
            proof {
                let next = self@.subrange(0, i + 1);
                assert(next.drop_last() =~= self@.subrange(0, i as int));
                assert(next.last() == self.path@[i as int]);
                lemma_pow4_bound(i as nat);
            }
            index = index * 4 + self.path[i] as u64;
            i = i + 1;
        }
        assert(self@.subrange(0, i as int) =~= self@);
        index
    }

    /// The deepest address that lies above both or is one of them: their
    /// longest common beginning.
    pub fn common_ancestor(&self, other: &TriangleAddress) -> (r: TriangleAddress)
        ensures
            r@ == self@.subrange(0, common_length(self@, other@) as int),
            is_prefix(r@, self@),
            is_prefix(r@, other@),
            r@.len() == self@.len() || r@.len() == other@.len() || self@[r@.len() as int] != other@[r@.len() as int],
    {
        proof {
            use_type_invariant(self);
        }
        let mut path: Vec<u8> = Vec::new();
        let mut i: usize = 0;
        assert(self@.skip(0) =~= self@ && other@.skip(0) =~= other@);
        while i < self.path.len() && i < other.path.len() && self.path[i] == other.path[i]
            invariant
                i <= self.path.len(),
                i <= other.path.len(),
                valid_path(self.path@),
                path@ == self@.subrange(0, i as int),
                path@ == other@.subrange(0, i as int),
                common_length(self@, other@) == i + common_length(self@.skip(i as int), other@.skip(i as int)),
            decreases self.path.len() - i,
        {
            proof {
                assert(self@.skip(i as int).drop_first() =~= self@.skip(i + 1));
                assert(other@.skip(i as int).drop_first() =~= other@.skip(i + 1));
                assert(self@.subrange(0, i + 1) =~= self@.subrange(0, i as int).push(self@[i as int]));
                assert(other@.subrange(0, i + 1) =~= other@.subrange(0, i as int).push(other@[i as int]));
            }
            path.push(self.path[i]);
            i = i + 1;
        }
        proof {
            if i < self.path.len() && i < other.path.len() {
                assert(self@.skip(i as int)[0] == self@[i as int]);
                assert(other@.skip(i as int)[0] == other@[i as int]);
            }
        }
        TriangleAddress { path }
    }
}

/// The text of one digit.
fn digit_text(digit: u8) -> (r: &'static str)
    requires
        digit <= MAX_DIGIT,
    ensures
        r@ == seq![digit_char(digit)],
{
    proof {
        reveal_strlit("0");
        reveal_strlit("1");
        reveal_strlit("2");
        reveal_strlit("3");
    }
    let r = if digit == 0 {
        "0"
    } else if digit == 1 {
        "1"
    } else if digit == 2 {
        "2"
    } else {
        "3"
    };
    assert(r@ =~= seq![digit_char(digit)]);
    r
}

/// Reads the token that `text` holds from `start` up to `end`.
fn read_token(text: &str, start: usize, end: usize) -> (r: Option<u8>)
    requires
        text.is_ascii(),
        start <= end <= text@.len(),
    ensures
        r == parse_token(text@.subrange(start as int, end as int)),
{
    let ghost token = text@.subrange(start as int, end as int);
    let mut first = start;
    if first < end && text.get_ascii(first) == 43 {
        first = first + 1;
    }
    let ghost digits = strip_plus(token);
    proof {
        if start < end {
            assert(token[0] == text@[start as int]);
            lemma_ascii_code(text@[start as int]);
        }
        assert(digits =~= text@.subrange(first as int, end as int));
    }
    if first == end {
        return None;
    }
    let last = text.get_ascii(end - 1);
    proof {
        assert(digits.last() == text@[end - 1]);
        lemma_ascii_code(text@[end - 1]);
    }
    if last < 48 || last > 51 {
        return None;
    }
    let mut i = first;
    while i < end - 1
        invariant
            text.is_ascii(),
            first <= i <= end - 1,
            end <= text@.len(),
            digits == text@.subrange(first as int, end as int),
            digits == strip_plus(text@.subrange(start as int, end as int)),
            forall|k: int| 0 <= k < i - first ==> #[trigger] digits[k] == '0',
        decreases end - i,
    {
        let c = text.get_ascii(i);
        proof {
            assert(digits[i - first] == text@[i as int]);
            lemma_ascii_code(text@[i as int]);
        }
        if c != 48 {
            assert(digits[i - first] != '0' && i - first < digits.len() - 1);
            return None;
        }
        i = i + 1;
    }
    Some(last - 48)
}

/// Whether `c` can occur in a dotted text that stands for a path.
pub open spec fn is_plain(c: char) -> bool {
    c == '.' || c == '+' || is_address_digit(c)
}

/// The codes of the characters an address is written in.
proof fn lemma_ascii_code(c: char)
    ensures
        (c == '.') == (c as u8 == 46 && c as u32 <= 0x7f),
        (c == '+') == (c as u8 == 43 && c as u32 <= 0x7f),
        (c == '0') == (c as u8 == 48 && c as u32 <= 0x7f),
        (c == '1') == (c as u8 == 49 && c as u32 <= 0x7f),
        (c == '2') == (c as u8 == 50 && c as u32 <= 0x7f),
        (c == '3') == (c as u8 == 51 && c as u32 <= 0x7f),
{
}

/// The last dot of a text stays where it is when characters without a dot
/// are put behind it.
proof fn lemma_last_dot_before_token(text: Seq<char>, start: int, end: int)
    requires
        0 <= start <= end <= text.len(),
        start > 0 ==> text[start - 1] == '.',
        forall|k: int| start <= k < end ==> #[trigger] text[k] != '.',
    ensures
        last_dot(text.subrange(0, end)) == start - 1,
    decreases end - start,
{
    let head = text.subrange(0, end);
    if start == end {
        if start > 0 {
            assert(head.last() == '.');
        }
    } else {
        assert(head.last() == text[end - 1]);
        assert(head.drop_last() =~= text.subrange(0, end - 1));
        lemma_last_dot_before_token(text, start, end - 1);
    }
}

/// The last dot lies within the text, or there is none.
proof fn lemma_last_dot_range(text: Seq<char>)
    ensures
        -1 <= last_dot(text) < text.len(),
        last_dot(text) >= 0 ==> text[last_dot(text)] == '.',
        forall|k: int| last_dot(text) < k < text.len() ==> #[trigger] text[k] != '.',
    decreases text.len(),
{
    if text.len() > 0 && text.last() != '.' {
        lemma_last_dot_range(text.drop_last());
        assert forall|k: int| last_dot(text) < k < text.len() implies #[trigger] text[k] != '.' by {
            if k < text.len() - 1 {
                assert(text.drop_last()[k] == text[k]);
            }
        }
    }
}

/// A beginning that ends before a dot, or with the text, and stands for no
/// path leaves the whole text standing for none.
proof fn lemma_failure_spreads(text: Seq<char>, end: int)
    requires
        0 <= end <= text.len(),
        end < text.len() ==> text[end] == '.',
        parse_path(text.subrange(0, end)) is None,
    ensures
        parse_path(text) is None,
    decreases text.len(),
{
    if end == text.len() {
        assert(text.subrange(0, end) =~= text);
    } else {
        lemma_last_dot_range(text);
        let k = last_dot(text);
        assert(k >= end);
        let init = text.subrange(0, k);
        if k > end {
            assert(init.subrange(0, end) =~= text.subrange(0, end));
            lemma_failure_spreads(init, end);
        }
    }
}

/// A text that stands for a path is written in digits, dots and plus signs.
proof fn lemma_parsed_text_is_plain(text: Seq<char>)
    requires
        parse_path(text) is Some,
    ensures
        forall|i: int| 0 <= i < text.len() ==> is_plain(#[trigger] text[i]),
    decreases text.len(),
{
    lemma_last_dot_range(text);
    let k = last_dot(text);
    let token = text.skip(k + 1);
    assert(text.skip(0) =~= text);
    assert(parse_token(token) is Some);
    lemma_token_is_plain(token);
    if 0 <= k < text.len() {
        lemma_parsed_text_is_plain(text.subrange(0, k));
    }
    assert forall|i: int| 0 <= i < text.len() implies is_plain(#[trigger] text[i]) by {
        if i > k {
            assert(token[i - k - 1] == text[i]);
        } else if i < k {
            assert(text.subrange(0, k)[i] == text[i]);
        }
    }
}

/// A token is written in digits and at most a plus sign.
proof fn lemma_token_is_plain(token: Seq<char>)
    requires
        parse_token(token) is Some,
    ensures
        forall|i: int| 0 <= i < token.len() ==> is_plain(#[trigger] token[i]),
{
    let digits = strip_plus(token);
    assert(is_address_digit(digits.last()));
    assert forall|i: int| 0 <= i < token.len() implies is_plain(#[trigger] token[i]) by {
        if token[0] == '+' {
            if i > 0 {
                assert(digits[i - 1] == token[i]);
                if i - 1 < digits.len() - 1 {
                    assert(digits[i - 1] == '0');
                }
            }
        } else {
            assert(digits[i] == token[i]);
            if i < digits.len() - 1 {
                assert(digits[i] == '0');
            }
        }
    }
}

/// A text written in digits, dots and plus signs is ASCII.
proof fn lemma_plain_text_is_ascii(text: Seq<char>)
    requires
        forall|i: int| 0 <= i < text.len() ==> is_plain(#[trigger] text[i]),
    ensures
        vstd::utf8::is_ascii_chars(text),
{
    assert forall|i: int| 0 <= i < text.len() implies '\0' <= #[trigger] text[i] <= '\u{7f}' by {
        assert(is_plain(text[i]));
    }
}

/// Whether `path` begins with `prefix`.
fn starts_with(path: &Vec<u8>, prefix: &Vec<u8>) -> (r: bool)
    requires
        prefix@.len() <= path@.len(),
    ensures
        r == (path@.subrange(0, prefix@.len() as int) == prefix@),
{
    let mut i: usize = 0;
    while i < prefix.len()
        invariant
            i <= prefix.len(),
            prefix@.len() <= path@.len(),
            forall|k: int| 0 <= k < i ==> path@[k] == prefix@[k],
        decreases prefix.len() - i,
    {
        if path[i] != prefix[i] {
            assert(path@.subrange(0, prefix@.len() as int)[i as int] != prefix@[i as int]);
            return false;
        }
        i = i + 1;
    }
    assert(path@.subrange(0, prefix@.len() as int) =~= prefix@);
    true
}

/// `4 * 4^n` fits in 64 bits as long as `n` is below 32.
pub proof fn lemma_pow4_bound(n: nat)
    ensures
        n < 32 ==> 4 * pow4(n) <= 0x1_0000_0000_0000_0000,
        pow4(n + 1) == 4 * pow4(n),
        pow4(n) >= 1,
    decreases n,
{
    if n > 0 {
        lemma_pow4_bound((n - 1) as nat);
    }
    if n < 32 {
        lemma_pow4_monotone(n + 1, 32);
        lemma_pow4_of_32();
    }
}

/// The power of a sum is the product of the powers.
pub proof fn lemma_pow4_sum(a: nat, b: nat)
    ensures
        pow4(a + b) == pow4(a) * pow4(b),
    decreases b,
{
    if b > 0 {
        lemma_pow4_sum(a, (b - 1) as nat);
        assert(pow4(a + b) == 4 * pow4((a + b - 1) as nat));
        assert(4 * (pow4(a) * pow4((b - 1) as nat)) == pow4(a) * (4 * pow4((b - 1) as nat)))
            by (nonlinear_arith);
    } else {
        assert(pow4(a) * 1 == pow4(a)) by (nonlinear_arith);
    }
}

/// `4^32` is `2^64`.
pub proof fn lemma_pow4_of_32()
    ensures
        pow4(32) == 0x1_0000_0000_0000_0000,
{
    assert(pow4(1) == 4) by {
        reveal_with_fuel(pow4, 2);
    }
    lemma_pow4_sum(1, 1);
    assert(pow4(2) == 16);
    lemma_pow4_sum(2, 2);
    assert(pow4(4) == 256);
    lemma_pow4_sum(4, 4);
    assert(pow4(8) == 65536);
    lemma_pow4_sum(8, 8);
    assert(pow4(16) == 0x1_0000_0000);
    lemma_pow4_sum(16, 16);
    assert(0x1_0000_0000 * 0x1_0000_0000 == 0x1_0000_0000_0000_0000) by (nonlinear_arith);
}

/// `pow4` grows with its argument.
pub proof fn lemma_pow4_monotone(a: nat, b: nat)
    requires
        a <= b,
    ensures
        pow4(a) <= pow4(b),
    decreases b,
{
    if a < b {
        lemma_pow4_monotone(a, (b - 1) as nat);
    }
}

/// Reading the text of an address gives the address back: for every path of
/// digits between 0 and 3, and so for the empty one, whose text is
/// `genesis`.
pub proof fn lemma_text_round_trip(path: Seq<u8>)
    requires
        valid_path(path),
    ensures
        parse_address(address_text(path)) == Some(path),
{
    reveal_strlit("genesis");
    if path.len() == 0 {
        assert(path =~= Seq::<u8>::empty());
    } else {
        lemma_joined_round_trip(path);
        lemma_joined_shape(path);
        assert(joined(path)[0] != 'g');
        assert("genesis"@[0] == 'g');
    }
}

/// The dotted text of a path has no dot at its end and begins with a digit.
proof fn lemma_joined_shape(path: Seq<u8>)
    requires
        path.len() > 0,
        valid_path(path),
    ensures
        joined(path).len() == 2 * path.len() - 1,
        joined(path).last() == digit_char(path.last()),
        is_address_digit(joined(path)[0]),
    decreases path.len(),
{
    if path.len() > 1 {
        let init = path.drop_last();
        assert(valid_path(init)) by {
            assert forall|i: int| 0 <= i < init.len() implies #[trigger] init[i] <= MAX_DIGIT by {
                assert(init[i] == path[i]);
            }
        }
        lemma_joined_shape(init);
        assert(joined(path)[0] == joined(init)[0]);
    }
}

/// Reading the dotted text of a path gives the path back.
proof fn lemma_joined_round_trip(path: Seq<u8>)
    requires
        path.len() > 0,
        valid_path(path),
    ensures
        parse_path(joined(path)) == Some(path),
    decreases path.len(),
{
    let d = path.last();
    assert(d <= MAX_DIGIT);
    let token = seq![digit_char(d)];
    assert(strip_plus(token) =~= token);
    assert(parse_token(token) == Some(d));
    if path.len() == 1 {
        assert(joined(path) =~= token);
        assert(last_dot(token.drop_last()) == -1);
        assert(last_dot(token) == -1);
        assert(path =~= seq![d]);
    } else {
        let init = path.drop_last();
        assert(valid_path(init)) by {
            assert forall|i: int| 0 <= i < init.len() implies #[trigger] init[i] <= MAX_DIGIT by {
                assert(init[i] == path[i]);
            }
        }
        lemma_joined_round_trip(init);
        let text = joined(path);
        let k = joined(init).len() as int;
        assert(text == joined(init) + seq!['.', digit_char(d)]);
        assert(text.last() == digit_char(d));
        assert(text.drop_last() =~= joined(init) + seq!['.']);
        assert(text.drop_last().last() == '.');
        assert(last_dot(text.drop_last()) == k);
        assert(last_dot(text) == k);
        assert(text.subrange(0, k) =~= joined(init));
        assert(text.skip(k + 1) =~= token);
        assert(init.push(d) =~= path);
    }
}

/// The text of an address is ASCII.
pub proof fn lemma_address_text_is_ascii(path: Seq<u8>)
    requires
        valid_path(path),
    ensures
        vstd::utf8::is_ascii_chars(address_text(path)),
{
    reveal_strlit("genesis");
    if path.len() > 0 {
        lemma_joined_is_plain(path);
        lemma_plain_text_is_ascii(joined(path));
    }
}

/// The dotted text of a path is written in digits and dots.
proof fn lemma_joined_is_plain(path: Seq<u8>)
    requires
        valid_path(path),
    ensures
        forall|i: int| 0 <= i < joined(path).len() ==> is_plain(#[trigger] joined(path)[i]),
    decreases path.len(),
{
    if path.len() > 1 {
        let init = path.drop_last();
        assert(valid_path(init)) by {
            assert forall|i: int| 0 <= i < init.len() implies #[trigger] init[i] <= MAX_DIGIT by {
                assert(init[i] == path[i]);
            }
        }
        lemma_joined_is_plain(init);
        assert(path.last() <= MAX_DIGIT);
        assert forall|i: int| 0 <= i < joined(path).len() implies is_plain(#[trigger] joined(path)[i]) by {
            if i < joined(init).len() {
                assert(joined(path)[i] == joined(init)[i]);
            }
        }
    } else if path.len() == 1 {
        assert(path[0] <= MAX_DIGIT);
    }
}

/// The family of an address that is not the genesis address: extending its
/// parent by its own last digit gives the address back, and each of its
/// three siblings is an address, lies below the same parent, and differs
/// from it and from the other two.
pub proof fn lemma_family(path: Seq<u8>)
    requires
        path.len() > 0,
        valid_path(path),
    ensures
        path.drop_last().push(path.last()) == path,
        forall|i: int|
            0 <= i < 3 ==> {
                let sibling = #[trigger] path.drop_last().push(sibling_digit(path.last(), i));
                &&& sibling != path
                &&& valid_path(sibling)
                &&& sibling.drop_last() == path.drop_last()
            },
        forall|i: int, j: int|
            0 <= i < j < 3 ==> path.drop_last().push(sibling_digit(path.last(), i))
                != path.drop_last().push(sibling_digit(path.last(), j)),
{
    let parent = path.drop_last();
    let own = path.last();
    assert(own <= MAX_DIGIT);
    assert(parent.push(own) =~= path);
    assert forall|i: int| 0 <= i < 3 implies {
        let sibling = #[trigger] parent.push(sibling_digit(own, i));
        &&& sibling != path
        &&& valid_path(sibling)
        &&& sibling.drop_last() == parent
    } by {
        let sibling = parent.push(sibling_digit(own, i));
        assert(sibling.last() != path.last());
        assert(sibling.drop_last() =~= parent);
        assert forall|k: int| 0 <= k < sibling.len() implies #[trigger] sibling[k] <= MAX_DIGIT by {
            if k < parent.len() {
                assert(sibling[k] == path[k]);
            }
        }
    }
    assert forall|i: int, j: int| 0 <= i < j < 3 implies parent.push(sibling_digit(own, i)) != parent.push(
        sibling_digit(own, j),
    ) by {
        assert(parent.push(sibling_digit(own, i)).last() != parent.push(sibling_digit(own, j)).last());
    }
}

/// The path made for an index has the asked depth, digits between 0 and 3,
/// and, where the index is below `4^depth`, that index as its position.
pub proof fn lemma_path_of_index(index: nat, depth: nat)
    ensures
        path_of_index(index, depth).len() == depth,
        valid_path(path_of_index(index, depth)),
        index < pow4(depth) ==> position_value(path_of_index(index, depth)) == index,
    decreases depth,
{
    if depth > 0 {
        let init = path_of_index(index / 4, (depth - 1) as nat);
        let path = path_of_index(index, depth);
        lemma_path_of_index(index / 4, (depth - 1) as nat);
        assert(path.drop_last() =~= init);
        assert forall|k: int| 0 <= k < path.len() implies #[trigger] path[k] <= MAX_DIGIT by {
            if k < init.len() {
                assert(path[k] == init[k]);
            }
        }
    }
}

/// Walks the addresses of the fractal level by level: first the genesis
/// address, then the four addresses of depth one, and so on down to a
/// greatest depth. Within a level the addresses come in the order of their
/// position indices.
#[derive(Debug)]
pub struct AddressBfsIterator {
    current_depth: u8,
    max_depth: u8,
    current_index: u64,
    total_at_depth: u64,
}

impl AddressBfsIterator {
    #[verifier::type_invariant]
    spec fn consistent(self) -> bool {
        &&& self.max_depth < MAX_INDEXED_DEPTH
        &&& self.current_depth <= self.max_depth + 1
        &&& self.current_depth <= self.max_depth ==> self.total_at_depth == pow4(self.current_depth as nat)
            && self.current_index < self.total_at_depth
    }

    /// The depth of the address that comes next.
    pub closed spec fn depth(self) -> nat {
        self.current_depth as nat
    }

    /// The position index of the address that comes next.
    pub closed spec fn index(self) -> nat {
        self.current_index as nat
    }

    /// The greatest depth that is walked.
    pub closed spec fn limit(self) -> nat {
        self.max_depth as nat
    }

    /// Whether every address has been handed out.
    pub open spec fn exhausted(self) -> bool {
        self.depth() > self.limit()
    }

    /// A walk from the genesis address down to `max_depth`.
    pub fn new(max_depth: u8) -> (r: AddressBfsIterator)
        requires
            max_depth < MAX_INDEXED_DEPTH,
        ensures
            r.depth() == 0,
            r.index() == 0,
            r.limit() == max_depth,
    {
        AddressBfsIterator { current_depth: 0, max_depth, current_index: 0, total_at_depth: 1 }
    }

    /// The next address of the walk, or `None` once all have been handed
    /// out.
    pub fn next(&mut self) -> (r: Option<TriangleAddress>)
        ensures
            final(self).limit() == old(self).limit(),
            old(self).exhausted() ==> r is None && final(self).depth() == old(self).depth()
                && final(self).index() == old(self).index(),
            !old(self).exhausted() ==> (r matches Some(a) && a@ == path_of_index(
                old(self).index(),
                old(self).depth(),
            )),
            !old(self).exhausted() && old(self).index() + 1 < pow4(old(self).depth()) ==> final(self).depth()
                == old(self).depth() && final(self).index() == old(self).index() + 1,
            !old(self).exhausted() && old(self).index() + 1 >= pow4(old(self).depth())
                ==> final(self).depth() == old(self).depth() + 1 && final(self).index() == 0,
    {
        proof {
            use_type_invariant(&*self);
        }
        if self.current_depth > self.max_depth {
            return None;
        }
        let path = digits_of_index(self.current_index, self.current_depth);
        let address = TriangleAddress { path };
        let depth = self.current_depth;
        let index = self.current_index;
        let total = self.total_at_depth;
        if index + 1 >= total {
            proof {
                lemma_pow4_bound(depth as nat);
                lemma_pow4_bound((depth + 1) as nat);
            }
            if depth < self.max_depth {
                *self = AddressBfsIterator {
                    current_depth: depth + 1,
                    max_depth: self.max_depth,
                    current_index: 0,
                    total_at_depth: total * 4,
                };
            } else {
                *self = AddressBfsIterator {
                    current_depth: depth + 1,
                    max_depth: self.max_depth,
                    current_index: 0,
                    total_at_depth: total,
                };
            }
        } else {
            *self = AddressBfsIterator {
                current_depth: depth,
                max_depth: self.max_depth,
                current_index: index + 1,
                total_at_depth: total,
            };
        }
        Some(address)
    }
}

/// The digits of the path of `depth` digits whose position index is `index`.
fn digits_of_index(index: u64, depth: u8) -> (r: Vec<u8>)
    ensures
        r@ == path_of_index(index as nat, depth as nat),
        valid_path(r@),
    decreases depth,
{
    proof {
        lemma_path_of_index(index as nat, depth as nat);
    }
    if depth == 0 {
        Vec::new()
    } else {
        let mut digits = digits_of_index(index / 4, depth - 1);
        digits.push((index % 4) as u8);
        digits
    }
}

} // verus!

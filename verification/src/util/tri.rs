//! A three-state boolean: `True`, `False` or `Invalid`.
use vstd::prelude::*;
use vstd::std_specs::convert::FromSpecImpl;
use vstd::std_specs::ops::{BitAndSpecImpl, BitOrSpecImpl, BitXorSpecImpl, NotSpecImpl};

verus! {

/// Specifies a 3 state Boolean value.
///
/// The variants are declared from lowest to highest, so the derived order is
/// `Invalid < False < True`.
#[derive(Debug, Clone, Copy, PartialEq, Eq, Structural, Hash, PartialOrd, Ord)]
pub enum TriState {
    /// Invalid.
    Invalid,
    /// False.
    False,
    /// True.
    True,
}

/// The boolean negation of a [`TriState`]; `Invalid` stays `Invalid`.
pub open spec fn tri_not(t: TriState) -> TriState {
    match t {
        TriState::True => TriState::False,
        TriState::False => TriState::True,
        TriState::Invalid => TriState::Invalid,
    }
}

/// Conjunction where `Invalid` dominates everything, then `False`.
pub open spec fn tri_and(a: TriState, b: TriState) -> TriState {
    if a == TriState::Invalid || b == TriState::Invalid {
        TriState::Invalid
    } else if a == TriState::False || b == TriState::False {
        TriState::False
    } else {
        TriState::True
    }
}

/// Disjunction where `Invalid` dominates everything, then `True`.
pub open spec fn tri_or(a: TriState, b: TriState) -> TriState {
    if a == TriState::Invalid || b == TriState::Invalid {
        TriState::Invalid
    } else if a == TriState::True || b == TriState::True {
        TriState::True
    } else {
        TriState::False
    }
}

/// Exclusive or where `Invalid` dominates everything.
pub open spec fn tri_xor(a: TriState, b: TriState) -> TriState {
    if a == TriState::Invalid || b == TriState::Invalid {
        TriState::Invalid
    } else if a != b {
        TriState::True
    } else {
        TriState::False
    }
}

/// The [`TriState`] of a boolean.
pub open spec fn tri_of_bool(b: bool) -> TriState {
    if b { TriState::True } else { TriState::False }
}

/// The [`TriState`] of an integer: 1 is `True`, 0 is `False`, anything else `Invalid`.
pub open spec fn tri_of_int(i: int) -> TriState {
    if i == 1 {
        TriState::True
    } else if i == 0 {
        TriState::False
    } else {
        TriState::Invalid
    }
}

/// The [`TriState`] of an optional boolean: `None` is `Invalid`.
pub open spec fn tri_of_option(o: Option<bool>) -> TriState {
    match o {
        Some(b) => tri_of_bool(b),
        None => TriState::Invalid,
    }
}

/// The optional boolean of a [`TriState`]: `Invalid` is `None`.
pub open spec fn tri_to_option(t: TriState) -> Option<bool> {
    match t {
        TriState::True => Some(true),
        TriState::False => Some(false),
        TriState::Invalid => None,
    }
}

/// On valid states the operators are the boolean ones: for booleans `a` and `b`, the
/// [`TriState`]s of `a` and `b` combine into the [`TriState`] of `a && b`, `a || b` and
/// `a != b`, and negate into that of `!a`.
pub proof fn lemma_valid_ops_are_boolean(a: bool, b: bool)
    ensures
        tri_and(tri_of_bool(a), tri_of_bool(b)) == tri_of_bool(a && b),
        tri_or(tri_of_bool(a), tri_of_bool(b)) == tri_of_bool(a || b),
        tri_xor(tri_of_bool(a), tri_of_bool(b)) == tri_of_bool(a != b),
        tri_not(tri_of_bool(a)) == tri_of_bool(!a),
{
}

/// `Invalid` absorbs every binary operator and stays `Invalid` when negated.
pub proof fn lemma_invalid_absorbs(t: TriState)
    ensures
        tri_and(TriState::Invalid, t) == TriState::Invalid,
        tri_and(t, TriState::Invalid) == TriState::Invalid,
        tri_or(TriState::Invalid, t) == TriState::Invalid,
        tri_or(t, TriState::Invalid) == TriState::Invalid,
        tri_xor(TriState::Invalid, t) == TriState::Invalid,
        tri_xor(t, TriState::Invalid) == TriState::Invalid,
        tri_not(TriState::Invalid) == TriState::Invalid,
{
}

/// Negating twice gives back the state.
pub proof fn lemma_not_involutive(t: TriState)
    ensures
        tri_not(tri_not(t)) == t,
{
}

/// The binary operators are commutative.
pub proof fn lemma_ops_commute(a: TriState, b: TriState)
    ensures
        tri_and(a, b) == tri_and(b, a),
        tri_or(a, b) == tri_or(b, a),
        tri_xor(a, b) == tri_xor(b, a),
{
}

/// De Morgan's laws hold: negation swaps `&` and `|`.
pub proof fn lemma_de_morgan(a: TriState, b: TriState)
    ensures
        tri_not(tri_and(a, b)) == tri_or(tri_not(a), tri_not(b)),
        tri_not(tri_or(a, b)) == tri_and(tri_not(a), tri_not(b)),
{
}

/// Converting to an optional boolean and back, either way round, gives back what was
/// converted.
pub proof fn lemma_option_round_trip(t: TriState, o: Option<bool>)
    ensures
        tri_of_option(tri_to_option(t)) == t,
        tri_to_option(tri_of_option(o)) == o,
{
}

impl TriState {
    /// Creates a [`TriState::True`].
    pub fn on() -> (r: Self)
        ensures
            r == TriState::True,
    {
        TriState::True
    }

    /// Create a [`TriState::False`].
    pub fn off() -> (r: Self)
        ensures
            r == TriState::False,
    {
        TriState::False
    }

    /// Create a [`TriState::Invalid`].
    pub fn invalid() -> (r: Self)
        ensures
            r == TriState::Invalid,
    {
        TriState::Invalid
    }

    /// Returns the opposite of the current *boolean* value. [`TriState::Invalid`] remains unchanged.
    pub fn toggle(self) -> (r: Self)
        ensures
            r == tri_not(self),
    {
        match self {
            TriState::True => TriState::False,
            TriState::False => TriState::True,
            TriState::Invalid => TriState::Invalid,
        }
    }

    /// Returns true if this [`TriState`] is [`TriState::True`] or [`TriState::False`].
    pub fn is_valid(self) -> (r: bool)
        ensures
            r == (self != TriState::Invalid),
    {
        self != TriState::Invalid
    }

    /// Safely creates a bool from a [`TriState`] without panicking, converting `Invalid` to `false`.
    pub fn safe_bool(self) -> (r: bool)
        ensures
            r == (self == TriState::True),
    {
        self == TriState::True
    }

    /// Converts a valid [`TriState`] to a bool: `True` is `true`, `False` is `false`.
    ///
    /// An `Invalid` state has no boolean value; use [`TriState::safe_bool`] for a lossy
    /// conversion that accepts it.
    pub fn into_bool(self) -> (r: bool)
        requires
            self != TriState::Invalid,
        ensures
            r == (self == TriState::True),
    {
        self == TriState::True
    }

    /// Converts a [`TriState`] to an optional bool, `None` for [`TriState::Invalid`].
    pub fn to_option(self) -> (r: Option<bool>)
        ensures
            r == (match self {
                TriState::True => Some(true),
                TriState::False => Some(false),
                TriState::Invalid => None::<bool>,
            }),
    {
        match self {
            TriState::False => Some(false),
            TriState::True => Some(true),
            TriState::Invalid => None,
        }
    }

    /// Displays a [`TriState`] as either "True", "False", or "Invalid".
    pub fn to_string(&self) -> (r: String)
        ensures
            r@ == (match *self {
                TriState::True => "True"@,
                TriState::False => "False"@,
                TriState::Invalid => "Invalid"@,
            }),
    {
        match self {
            TriState::True => "True".to_string(),
            TriState::False => "False".to_string(),
            TriState::Invalid => "Invalid".to_string(),
        }
    }
}

impl std::ops::Not for TriState {
    type Output = Self;

    fn not(self) -> (r: Self) {
        self.toggle()
    }
}

impl NotSpecImpl for TriState {
    open spec fn obeys_not_spec() -> bool {
        true
    }

    open spec fn not_req(self) -> bool {
        true
    }

    open spec fn not_spec(self) -> Self {
        tri_not(self)
    }
}

impl std::ops::BitAnd for TriState {
    type Output = Self;

    fn bitand(self, rhs: Self) -> (r: Self) {
        match (self, rhs) {
            (TriState::Invalid, _) | (_, TriState::Invalid) => TriState::Invalid,
            (TriState::False, _) | (_, TriState::False) => TriState::False,
            (TriState::True, TriState::True) => TriState::True,
        }
    }
}

impl BitAndSpecImpl for TriState {
    open spec fn obeys_bitand_spec() -> bool {
        true
    }

    open spec fn bitand_req(self, rhs: Self) -> bool {
        true
    }

    open spec fn bitand_spec(self, rhs: Self) -> Self {
        tri_and(self, rhs)
    }
}

impl std::ops::BitOr for TriState {
    type Output = Self;

    fn bitor(self, rhs: Self) -> (r: Self) {
        match (self, rhs) {
            (TriState::Invalid, _) | (_, TriState::Invalid) => TriState::Invalid,
            (TriState::True, _) | (_, TriState::True) => TriState::True,
            (TriState::False, TriState::False) => TriState::False,
        }
    }
}

impl BitOrSpecImpl for TriState {
    open spec fn obeys_bitor_spec() -> bool {
        true
    }

    open spec fn bitor_req(self, rhs: Self) -> bool {
        true
    }

    open spec fn bitor_spec(self, rhs: Self) -> Self {
        tri_or(self, rhs)
    }
}

impl std::ops::BitXor for TriState {
    type Output = Self;

    fn bitxor(self, rhs: Self) -> (r: Self) {
        match (self, rhs) {
            (TriState::Invalid, _) | (_, TriState::Invalid) => TriState::Invalid,
            (TriState::True, TriState::False) | (TriState::False, TriState::True) => TriState::True,
            (TriState::True, TriState::True) | (TriState::False, TriState::False) => TriState::False,
        }
    }
}

impl BitXorSpecImpl for TriState {
    open spec fn obeys_bitxor_spec() -> bool {
        true
    }

    open spec fn bitxor_req(self, rhs: Self) -> bool {
        true
    }

    open spec fn bitxor_spec(self, rhs: Self) -> Self {
        tri_xor(self, rhs)
    }
}

impl Default for TriState {
    /// Default for [`TriState`] is [`TriState::False`], **not** [`TriState::Invalid`].
    fn default() -> (r: Self)
        ensures
            r == TriState::False,
    {
        TriState::False
    }
}

impl From<bool> for TriState {
    fn from(b: bool) -> (r: Self) {
        if b {
            TriState::True
        } else {
            TriState::False
        }
    }
}

impl FromSpecImpl<bool> for TriState {
    open spec fn obeys_from_spec() -> bool {
        true
    }

    open spec fn from_spec(v: bool) -> Self {
        tri_of_bool(v)
    }
}

impl From<Option<bool>> for TriState {
    fn from(b: Option<bool>) -> (r: Self) {
        match b {
            Some(true) => TriState::True,
            Some(false) => TriState::False,
            None => TriState::Invalid,
        }
    }
}

impl FromSpecImpl<Option<bool>> for TriState {
    open spec fn obeys_from_spec() -> bool {
        true
    }

    open spec fn from_spec(v: Option<bool>) -> Self {
        tri_of_option(v)
    }
}

impl<E> From<Result<bool, E>> for TriState {
    fn from(b: Result<bool, E>) -> (r: Self) {
        match b {
            Ok(true) => TriState::True,
            Ok(false) => TriState::False,
            Err(_) => TriState::Invalid,
        }
    }
}

impl<E> FromSpecImpl<Result<bool, E>> for TriState {
    open spec fn obeys_from_spec() -> bool {
        true
    }

    open spec fn from_spec(v: Result<bool, E>) -> Self {
        match v {
            Ok(b) => tri_of_bool(b),
            Err(_) => TriState::Invalid,
        }
    }
}

impl From<TriState> for Option<bool> {
    fn from(t: TriState) -> (r: Option<bool>) {
        t.to_option()
    }
}

impl FromSpecImpl<TriState> for Option<bool> {
    open spec fn obeys_from_spec() -> bool {
        true
    }

    open spec fn from_spec(t: TriState) -> Self {
        tri_to_option(t)
    }
}

impl From<usize> for TriState {
    /// 1 is `True`, 0 is `False`, and any other value is `Invalid`.
    fn from(i: usize) -> (r: Self) {
        if i == 1 {
            TriState::True
        } else if i == 0 {
            TriState::False
        } else {
            TriState::Invalid
        }
    }
}

impl FromSpecImpl<usize> for TriState {
    open spec fn obeys_from_spec() -> bool {
        true
    }

    open spec fn from_spec(v: usize) -> Self {
        tri_of_int(v as int)
    }
}

impl From<isize> for TriState {
    /// 1 is `True`, 0 is `False`, and any other value is `Invalid`.
    fn from(i: isize) -> (r: Self) {
        if i == 1 {
            TriState::True
        } else if i == 0 {
            TriState::False
        } else {
            TriState::Invalid
        }
    }
}

impl FromSpecImpl<isize> for TriState {
    open spec fn obeys_from_spec() -> bool {
        true
    }

    open spec fn from_spec(v: isize) -> Self {
        tri_of_int(v as int)
    }
}

impl From<i64> for TriState {
    /// 1 is `True`, 0 is `False`, and any other value is `Invalid`.
    fn from(i: i64) -> (r: Self) {
        if i == 1 {
            TriState::True
        } else if i == 0 {
            TriState::False
        } else {
            TriState::Invalid
        }
    }
}

impl FromSpecImpl<i64> for TriState {
    open spec fn obeys_from_spec() -> bool {
        true
    }

    open spec fn from_spec(v: i64) -> Self {
        tri_of_int(v as int)
    }
}

impl From<u64> for TriState {
    /// 1 is `True`, 0 is `False`, and any other value is `Invalid`.
    fn from(i: u64) -> (r: Self) {
        if i == 1 {
            TriState::True
        } else if i == 0 {
            TriState::False
        } else {
            TriState::Invalid
        }
    }
}

impl FromSpecImpl<u64> for TriState {
    open spec fn obeys_from_spec() -> bool {
        true
    }

    open spec fn from_spec(v: u64) -> Self {
        tri_of_int(v as int)
    }
}

impl From<i32> for TriState {
    /// 1 is `True`, 0 is `False`, and any other value is `Invalid`.
    fn from(i: i32) -> (r: Self) {
        if i == 1 {
            TriState::True
        } else if i == 0 {
            TriState::False
        } else {
            TriState::Invalid
        }
    }
}

impl FromSpecImpl<i32> for TriState {
    open spec fn obeys_from_spec() -> bool {
        true
    }

    open spec fn from_spec(v: i32) -> Self {
        tri_of_int(v as int)
    }
}

impl From<u32> for TriState {
    /// 1 is `True`, 0 is `False`, and any other value is `Invalid`.
    fn from(i: u32) -> (r: Self) {
        if i == 1 {
            TriState::True
        } else if i == 0 {
            TriState::False
        } else {
            TriState::Invalid
        }
    }
}

impl FromSpecImpl<u32> for TriState {
    open spec fn obeys_from_spec() -> bool {
        true
    }

    open spec fn from_spec(v: u32) -> Self {
        tri_of_int(v as int)
    }
}

impl From<i16> for TriState {
    /// 1 is `True`, 0 is `False`, and any other value is `Invalid`.
    fn from(i: i16) -> (r: Self) {
        if i == 1 {
            TriState::True
        } else if i == 0 {
            TriState::False
        } else {
            TriState::Invalid
        }
    }
}

impl FromSpecImpl<i16> for TriState {
    open spec fn obeys_from_spec() -> bool {
        true
    }

    open spec fn from_spec(v: i16) -> Self {
        tri_of_int(v as int)
    }
}

impl From<u16> for TriState {
    /// 1 is `True`, 0 is `False`, and any other value is `Invalid`.
    fn from(i: u16) -> (r: Self) {
        if i == 1 {
            TriState::True
        } else if i == 0 {
            TriState::False
        } else {
            TriState::Invalid
        }
    }
}

impl FromSpecImpl<u16> for TriState {
    open spec fn obeys_from_spec() -> bool {
        true
    }

    open spec fn from_spec(v: u16) -> Self {
        tri_of_int(v as int)
    }
}

impl From<i8> for TriState {
    /// 1 is `True`, 0 is `False`, and any other value is `Invalid`.
    fn from(i: i8) -> (r: Self) {
        if i == 1 {
            TriState::True
        } else if i == 0 {
            TriState::False
        } else {
            TriState::Invalid
        }
    }
}

impl FromSpecImpl<i8> for TriState {
    open spec fn obeys_from_spec() -> bool {
        true
    }

    open spec fn from_spec(v: i8) -> Self {
        tri_of_int(v as int)
    }
}

impl From<u8> for TriState {
    /// 1 is `True`, 0 is `False`, and any other value is `Invalid`.
    fn from(i: u8) -> (r: Self) {
        if i == 1 {
            TriState::True
        } else if i == 0 {
            TriState::False
        } else {
            TriState::Invalid
        }
    }
}

impl FromSpecImpl<u8> for TriState {
    open spec fn obeys_from_spec() -> bool {
        true
    }

    open spec fn from_spec(v: u8) -> Self {
        tri_of_int(v as int)
    }
}

} // verus!

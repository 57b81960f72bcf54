use crate::text::chars_of;
use candid::Principal;
use vstd::prelude::*;

verus! {

/// The largest number of bytes a principal can have.
pub const MAX_PRINCIPAL_BYTES: usize = 29;

/// The bytes of the principal that stands for an unauthenticated caller.
pub open spec fn anonymous_bytes() -> Seq<u8> {
    seq![4u8]
}

/// The textual form of the principal with the given bytes: a checksum and the
/// bytes in base 32, lower case, grouped by dashes.
pub uninterp spec fn principal_text(bytes: Seq<u8>) -> Seq<char>;

/// Whether `c` can stand in the text of a principal: a lower-case letter, a
/// digit from 2 to 7, or a dash.
pub open spec fn is_principal_char(c: char) -> bool {
    ||| 0x61 <= c as u32 <= 0x7a
    ||| 0x32 <= c as u32 <= 0x37
    ||| c == '-'
}

/// Whether every character of `text` can stand in the text of a principal.
/// Such a text holds no colon.
pub open spec fn is_principal_text(text: Seq<char>) -> bool {
    forall|i: int| 0 <= i < text.len() ==> is_principal_char(#[trigger] text[i])
}

/// Whether every character of `text` can stand in the text of a principal.
pub fn holds_principal_chars(text: &str) -> (b: bool)
    ensures
        b == is_principal_text(text@),
{
    let chars = chars_of(text);
    let mut i: usize = 0;
    while i < chars.len()
        invariant
            chars@ == text@,
            0 <= i <= chars@.len(),
            forall|j: int| 0 <= j < i ==> is_principal_char(#[trigger] chars@[j]),
        decreases chars@.len() - i,
    {
        let c = chars[i];
        let code = c as u32;
        let fine = (0x61 <= code && code <= 0x7a) || (0x32 <= code && code <= 0x37) || c == '-';
        if !fine {
            return false;
        }
        i = i + 1;
    }
    true
}

/// Calls `candid::Principal::from_slice` and then `Principal::to_text`.
///
/// `from_slice` accepts up to 29 bytes; `to_text` renders the principal without
/// reading anything but its bytes. The contract names that text. Of its shape
/// it claims the alphabet alone: `to_text` writes base 32 without padding in
/// the alphabet of letters and the digits 2 to 7, turns the letters to lower
/// case, and puts a dash after every fifth character.
#[verifier::external_body]
fn principal_to_text(bytes: &Vec<u8>) -> (text: String)
    requires
        bytes@.len() <= MAX_PRINCIPAL_BYTES,
    ensures
        text@ == principal_text(bytes@),
        is_principal_text(text@),
{
    Principal::from_slice(bytes.as_slice()).to_text()
}

/// An identity: the bytes of a principal. Balances and log keys use its text.
#[derive(Debug, PartialEq, Eq)]
pub struct Identity {
    bytes: Vec<u8>,
}

impl View for Identity {
    type V = Seq<u8>;

    closed spec fn view(&self) -> Seq<u8> {
        self.bytes@
    }
}

impl Identity {
    #[verifier::type_invariant]
    spec fn within_principal_size(self) -> bool {
        self.bytes@.len() <= MAX_PRINCIPAL_BYTES
    }

    /// The text under which the ledger knows this identity.
    pub open spec fn text(&self) -> Seq<char> {
        principal_text(self@)
    }

    /// Whether this is the anonymous identity.
    pub open spec fn anonymous(&self) -> bool {
        self@ == anonymous_bytes()
    }

    /// The identity with the given principal bytes, if they are at most 29.
    pub fn from_bytes(bytes: Vec<u8>) -> (identity: Option<Identity>)
        ensures
            identity is Some <==> bytes@.len() <= MAX_PRINCIPAL_BYTES,
            identity matches Some(id) ==> id@ == bytes@,
    {
        if bytes.len() <= MAX_PRINCIPAL_BYTES {
            Some(Identity { bytes })
        } else {
            None
        }
    }

    /// The identity of an unauthenticated caller.
    pub fn new_anonymous() -> (identity: Identity)
        ensures
            identity.anonymous(),
    {
        let mut bytes: Vec<u8> = Vec::new();
        bytes.push(4);
        assert(bytes@ =~= anonymous_bytes());
        Identity { bytes }
    }

    /// The principal bytes.
    pub fn as_bytes(&self) -> (bytes: &Vec<u8>)
        ensures
            bytes@ == self@,
            bytes@.len() <= MAX_PRINCIPAL_BYTES,
    {
        proof {
            use_type_invariant(self);
        }
        &self.bytes
    }

    /// A second value of the same identity.
    pub fn duplicate(&self) -> (copy: Identity)
        ensures
            copy@ == self@,
    {
        proof {
            use_type_invariant(self);
        }
        let mut bytes: Vec<u8> = Vec::new();
        let mut i: usize = 0;
        while i < self.bytes.len()
            invariant
                0 <= i <= self.bytes@.len(),
                bytes@ == self.bytes@.take(i as int),
            decreases self.bytes@.len() - i,
        {
            bytes.push(self.bytes[i]);
            assert(self.bytes@.take(i + 1) == self.bytes@.take(i as int).push(
                self.bytes@[i as int],
            ));
            i = i + 1;
        }
        assert(self.bytes@.take(i as int) == self.bytes@);
        Identity { bytes }
    }

    /// Whether this is the anonymous identity.
    pub fn is_anonymous(&self) -> (b: bool)
        ensures
            b == self.anonymous(),
    {
        let b = self.bytes.len() == 1 && self.bytes[0] == 4;
        proof {
            if b {
                assert(self.bytes@ =~= anonymous_bytes());
            }
        }
        b
    }

    /// The text under which the ledger knows this identity.
    pub fn to_text(&self) -> (text: String)
        ensures
            text@ == self.text(),
            is_principal_text(text@),
    {
        proof {
            use_type_invariant(self);
        }
        principal_to_text(&self.bytes)
    }
}

/// Whether `caller` is an authenticated user; the same test as
/// [`is_authenticated`], offered to callers of the service.
pub fn is_user_authenticated(caller: &Identity) -> (b: bool)
    ensures
        b == !caller.anonymous(),
{
    is_authenticated(caller)
}

/// The identity of the caller, as the service reports it back.
pub fn whoami(caller: &Identity) -> (me: Identity)
    ensures
        me@ == caller@,
{
    caller.duplicate()
}

impl Clone for Identity {
    fn clone(&self) -> (copy: Identity)
        ensures
            copy@ == self@,
    {
        self.duplicate()
    }
}

/// Whether `caller` may use the operations that need an authenticated caller:
/// every identity but the anonymous one.
pub fn is_authenticated(caller: &Identity) -> (b: bool)
    ensures
        b == !caller.anonymous(),
{
    !caller.is_anonymous()
}

} // verus!

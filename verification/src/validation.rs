//! Validation of request inputs: texts, collection names, batch sizes and
//! vector dimensions.
use vstd::prelude::*;
use vstd::string::*;
use vstd::utf8::encode_utf8;
use crate::decimal::{decimal, push_decimal};

verus! {

/// Largest text, in bytes, that a request may carry.
pub const MAX_TEXT_BYTES: usize = 1_000_000;

/// Longest collection name, in bytes.
pub const MAX_COLLECTION_NAME_BYTES: usize = 255;

/// Why a request input was refused.
#[derive(Debug, PartialEq, Eq)]
pub enum ValidationError {
    /// The text is empty.
    EmptyText,
    /// The text is longer than `MAX_TEXT_BYTES` bytes.
    TextTooLarge { len: usize },
    /// The collection name is empty.
    EmptyCollectionName,
    /// The collection name is longer than `MAX_COLLECTION_NAME_BYTES` bytes.
    CollectionNameTooLong { len: usize },
    /// The collection name holds a character other than a letter or digit,
    /// `_` or `-`.
    InvalidCollectionName,
    /// A batch holds no item.
    EmptyBatch { operation: String },
    /// A batch holds more items than allowed.
    BatchTooLarge { operation: String, size: usize, max_size: usize },
    /// A vector does not have the expected number of components.
    DimensionMismatch { expected: usize, actual: usize },
}

/// The message that answers a request refused for `e`.
pub open spec fn message_of(e: ValidationError) -> Seq<char> {
    match e {
        ValidationError::EmptyText => "Text cannot be empty"@,
        ValidationError::TextTooLarge { len } => "Text too large: "@ + decimal(len as nat) + " bytes (max 1MB)"@,
        ValidationError::EmptyCollectionName => "Collection name cannot be empty"@,
        ValidationError::CollectionNameTooLong { .. } => "Collection name too long (max 255 chars)"@,
        ValidationError::InvalidCollectionName =>
            "Collection name can only contain alphanumeric characters, underscores, and hyphens"@,
        ValidationError::EmptyBatch { operation } => operation@ + " batch cannot be empty"@,
        ValidationError::BatchTooLarge { operation, size, max_size } => operation@ + " batch too large: "@
            + decimal(size as nat) + " items (max "@ + decimal(max_size as nat) + ")"@,
        ValidationError::DimensionMismatch { expected, actual } => "Vector dimension mismatch: expected "@
            + decimal(expected as nat) + ", got "@ + decimal(actual as nat),
    }
}

impl ValidationError {
    /// The message that answers a request refused for this reason.
    pub fn message(&self) -> (m: String)
        ensures
            m@ == message_of(*self),
    {
        match self {
            ValidationError::EmptyText => String::from_str("Text cannot be empty"),
            ValidationError::TextTooLarge { len } => {
                let mut m = String::from_str("Text too large: ");
                push_decimal(&mut m, *len as u64);
                m.append(" bytes (max 1MB)");
                m
            },
            ValidationError::EmptyCollectionName => String::from_str("Collection name cannot be empty"),
            ValidationError::CollectionNameTooLong { .. } => String::from_str("Collection name too long (max 255 chars)"),
            ValidationError::InvalidCollectionName => String::from_str(
                "Collection name can only contain alphanumeric characters, underscores, and hyphens",
            ),
            ValidationError::EmptyBatch { operation } => {
                let mut m = String::from_str(operation.as_str());
                m.append(" batch cannot be empty");
                m
            },
            ValidationError::BatchTooLarge { operation, size, max_size } => {
                let mut m = String::from_str(operation.as_str());
                m.append(" batch too large: ");
                push_decimal(&mut m, *size as u64);
                m.append(" items (max ");
                push_decimal(&mut m, *max_size as u64);
                m.append(")");
                m
            },
            ValidationError::DimensionMismatch { expected, actual } => {
                let mut m = String::from_str("Vector dimension mismatch: expected ");
                push_decimal(&mut m, *expected as u64);
                m.append(", got ");
                push_decimal(&mut m, *actual as u64);
                m
            },
        }
    }
}

/// What `char::is_alphanumeric` answers for `c` (Unicode's `Alphabetic` or
/// numeric properties).
pub uninterp spec fn spec_is_alphanumeric(c: char) -> bool;

/// An ASCII letter or digit.
pub open spec fn is_ascii_alnum(c: char) -> bool {
    ||| (48 <= c as u32 && c as u32 <= 57)
    ||| (65 <= c as u32 && c as u32 <= 90)
    ||| (97 <= c as u32 && c as u32 <= 122)
}

/// Calls `char::is_alphanumeric`. Its answer rests on Unicode tables; the
/// contract names it, and states what std documents for ASCII: there the
/// alphanumeric characters are exactly the letters and digits.
#[verifier::external_body]
fn char_is_alphanumeric(c: char) -> (r: bool)
    ensures
        r == spec_is_alphanumeric(c),
        (c as u32) < 128 ==> r == is_ascii_alnum(c),
{
    c.is_alphanumeric()
}

/// Whether `char::is_alphanumeric` accepts `c`: for ASCII, a letter or a
/// digit; beyond ASCII, as Unicode's tables say.
pub open spec fn alphanumeric(c: char) -> bool {
    if (c as u32) < 128 {
        is_ascii_alnum(c)
    } else {
        spec_is_alphanumeric(c)
    }
}

/// A character that may stand in a collection name.
pub open spec fn is_name_char(c: char) -> bool {
    alphanumeric(c) || c == '_' || c == '-'
}

/// Every character of `s` may stand in a collection name.
pub open spec fn all_name_chars(s: Seq<char>) -> bool {
    forall|i: int| 0 <= i < s.len() ==> #[trigger] is_name_char(s[i])
}

/// The outcome that text validation owes for `text`.
pub open spec fn text_check(text: Seq<char>) -> Result<(), ValidationError> {
    if text.len() == 0 {
        Err(ValidationError::EmptyText)
    } else if encode_utf8(text).len() > MAX_TEXT_BYTES {
        Err(ValidationError::TextTooLarge { len: encode_utf8(text).len() as usize })
    } else {
        Ok(())
    }
}

/// Checks that a text is not empty and holds at most one megabyte of UTF-8.
pub fn validate_text(text: &str) -> (r: Result<(), ValidationError>)
    ensures
        r == text_check(text@),
{
    if text.is_empty() {
        return Err(ValidationError::EmptyText);
    }
    let len = text.as_bytes().len();
    if len > MAX_TEXT_BYTES {
        return Err(ValidationError::TextTooLarge { len });
    }
    Ok(())
}

/// The outcome that collection-name validation owes for `name`.
pub open spec fn collection_name_check(name: Seq<char>) -> Result<(), ValidationError> {
    if name.len() == 0 {
        Err(ValidationError::EmptyCollectionName)
    } else if encode_utf8(name).len() > MAX_COLLECTION_NAME_BYTES {
        Err(ValidationError::CollectionNameTooLong { len: encode_utf8(name).len() as usize })
    } else if !all_name_chars(name) {
        Err(ValidationError::InvalidCollectionName)
    } else {
        Ok(())
    }
}

/// Checks that a collection name is not empty, holds at most 255 bytes, and
/// has only letters, digits, underscores and hyphens.
pub fn validate_collection_name(name: &str) -> (r: Result<(), ValidationError>)
    ensures
        r == collection_name_check(name@),
{
    if name.is_empty() {
        return Err(ValidationError::EmptyCollectionName);
    }
    let len = name.as_bytes().len();
    if len > MAX_COLLECTION_NAME_BYTES {
        return Err(ValidationError::CollectionNameTooLong { len });
    }
    let n = name.unicode_len();
    let mut i: usize = 0;
    while i < n
        invariant
            n == name@.len(),
            n > 0,
            encode_utf8(name@).len() <= MAX_COLLECTION_NAME_BYTES,
            i <= n,
            forall|j: int| 0 <= j < i ==> #[trigger] is_name_char(name@[j]),
        decreases n - i,
    {
        let c = name.get_char(i);
        let ok = char_is_alphanumeric(c) || c == '_' || c == '-';
        if !ok {
            assert(!is_name_char(name@[i as int]));
            assert(!all_name_chars(name@));
            return Err(ValidationError::InvalidCollectionName);
        }
        i = i + 1;
    }
    Ok(())
}

/// Texts are limited by their UTF-8 bytes, not their characters: an empty
/// text is refused as empty; a non-empty one is refused exactly when its
/// UTF-8 encoding is longer than 1,000,000 bytes, with that byte length in
/// the error; every other text is accepted.
pub proof fn law_text_limit_in_bytes(text: Seq<char>)
    requires
        encode_utf8(text).len() <= usize::MAX,
    ensures
        (text_check(text) == Err::<(), ValidationError>(ValidationError::EmptyText)) <==> text.len() == 0,
        text.len() > 0 && encode_utf8(text).len() > 1_000_000 ==> text_check(text)
            == Err::<(), ValidationError>(ValidationError::TextTooLarge { len: encode_utf8(text).len() as usize }),
        text_check(text) matches Err(ValidationError::TextTooLarge { len }) ==> len == encode_utf8(text).len()
            && len > 1_000_000,
        (text_check(text) is Ok) <==> (text.len() > 0 && encode_utf8(text).len() <= 1_000_000),
{
}

/// A collection name is accepted only if each of its characters is one
/// that `char::is_alphanumeric` accepts, `_` or `-`; a non-empty name of at
/// most 255 bytes holding any other character (such as `.`, a space or
/// `/`) is refused as invalid.
pub proof fn law_collection_name_chars(name: Seq<char>)
    ensures
        collection_name_check(name) is Ok ==> forall|i: int| 0 <= i < name.len()
            ==> alphanumeric(#[trigger] name[i]) || name[i] == '_' || name[i] == '-',
        collection_name_check(name) is Ok ==> forall|i: int| 0 <= i < name.len() && (#[trigger] name[i] as u32) < 128
            ==> is_ascii_alnum(name[i]) || name[i] == '_' || name[i] == '-',
        name.len() > 0 && encode_utf8(name).len() <= 255 && (exists|i: int| 0 <= i < name.len()
            && !(alphanumeric(#[trigger] name[i]) || name[i] == '_' || name[i] == '-'))
            ==> collection_name_check(name) == Err::<(), ValidationError>(ValidationError::InvalidCollectionName),
        name.len() > 0 && encode_utf8(name).len() <= 255 && (exists|i: int| 0 <= i < name.len()
            && (#[trigger] name[i] as u32) < 128 && !is_ascii_alnum(name[i]) && name[i] != '_' && name[i] != '-')
            ==> collection_name_check(name) == Err::<(), ValidationError>(ValidationError::InvalidCollectionName),
{
    if collection_name_check(name) is Ok {
        assert forall|i: int| 0 <= i < name.len() implies alphanumeric(#[trigger] name[i]) || name[i] == '_' || name[i] == '-' by {
            assert(is_name_char(name[i]));
        }
    }
    if name.len() > 0 && encode_utf8(name).len() <= 255 && (exists|i: int| 0 <= i < name.len()
        && !(alphanumeric(#[trigger] name[i]) || name[i] == '_' || name[i] == '-')) {
        let i = choose|i: int| 0 <= i < name.len() && !(alphanumeric(#[trigger] name[i]) || name[i] == '_' || name[i] == '-');
        assert(!is_name_char(name[i]));
    }
    if name.len() > 0 && encode_utf8(name).len() <= 255 && (exists|i: int| 0 <= i < name.len()
        && (#[trigger] name[i] as u32) < 128 && !is_ascii_alnum(name[i]) && name[i] != '_' && name[i] != '-') {
        let i = choose|i: int| 0 <= i < name.len() && (#[trigger] name[i] as u32) < 128 && !is_ascii_alnum(name[i]) && name[i] != '_' && name[i] != '-';
        assert(!is_name_char(name[i]));
    }
}

/// Checks that a batch holds at least one and at most `max_size` items;
/// `operation` names the batch in the error.
pub fn validate_batch_size(size: usize, max_size: usize, operation: &str) -> (r: Result<(), ValidationError>)
    ensures
        size == 0 <==> r matches Err(ValidationError::EmptyBatch { operation: o }),
        r matches Err(ValidationError::EmptyBatch { operation: o }) ==> o@ == operation@,
        (size > 0 && size > max_size) <==> r matches Err(ValidationError::BatchTooLarge { .. }),
        r matches Err(ValidationError::BatchTooLarge { operation: o, size: s, max_size: m }) ==> {
            &&& o@ == operation@
            &&& s == size
            &&& m == max_size
        },
        r is Ok <==> (0 < size <= max_size),
{
    if size == 0 {
        return Err(ValidationError::EmptyBatch { operation: operation.to_owned() });
    }
    if size > max_size {
        return Err(ValidationError::BatchTooLarge { operation: operation.to_owned(), size, max_size });
    }
    Ok(())
}

/// Checks that a vector has exactly `expected_dim` components.
pub fn validate_dimensions<T>(vector: &[T], expected_dim: usize) -> (r: Result<(), ValidationError>)
    ensures
        r == (if vector@.len() == expected_dim {
            Ok::<(), ValidationError>(())
        } else {
            Err(ValidationError::DimensionMismatch { expected: expected_dim, actual: vector@.len() as usize })
        }),
{
    let actual = vector.len();
    if actual != expected_dim {
        return Err(ValidationError::DimensionMismatch { expected: expected_dim, actual });
    }
    Ok(())
}

} // verus!

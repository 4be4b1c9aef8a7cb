//! Errors of the index, and their messages.
use vstd::prelude::*;

verus! {

/// Why an operation of the index failed.
#[derive(Clone, Debug, PartialEq, Eq)]
pub enum DbError {
    /// A dimension mismatch at construction: the persisted index was written
    /// with another embedding dimension.
    StoredDimensionMismatch { stored: usize, expected: usize },
    /// A dimension mismatch at upsert: the vector of item `id` has the wrong length.
    VectorDimensionMismatch { id: String, expected: usize, found: usize },
    /// Corrupt state: the persisted matrix does not hold one row per entry.
    MatrixSizeMismatch { expected: usize, found: usize },
    /// Corrupt state: the persisted matrix is not base64 of whole 32-bit words.
    UndecodableMatrix,
    /// Corrupt state: two persisted entries share an identifier.
    DuplicateId { id: String },
    /// A batch whose parallel lists of embeddings and identifiers differ in length.
    CountMismatch { embeddings: usize, ids: usize },
}

/// The character of a decimal digit.
pub open spec fn digit_char(d: nat) -> char {
    if d == 0 {
        '0'
    } else if d == 1 {
        '1'
    } else if d == 2 {
        '2'
    } else if d == 3 {
        '3'
    } else if d == 4 {
        '4'
    } else if d == 5 {
        '5'
    } else if d == 6 {
        '6'
    } else if d == 7 {
        '7'
    } else if d == 8 {
        '8'
    } else {
        '9'
    }
}

/// The decimal notation of `n`, without leading zeros.
pub open spec fn decimal(n: nat) -> Seq<char>
    decreases n,
{
    if n < 10 {
        seq![digit_char(n)]
    } else {
        decimal(n / 10) + seq![digit_char(n % 10)]
    }
}

fn digit_text(d: usize) -> (r: &'static str)
    requires
        d < 10,
    ensures
        r@ == seq![digit_char(d as nat)],
{
    proof {
        reveal_strlit("0");
        reveal_strlit("1");
        reveal_strlit("2");
        reveal_strlit("3");
        reveal_strlit("4");
        reveal_strlit("5");
        reveal_strlit("6");
        reveal_strlit("7");
        reveal_strlit("8");
        reveal_strlit("9");
    }
    if d == 0 {
        "0"
    } else if d == 1 {
        "1"
    } else if d == 2 {
        "2"
    } else if d == 3 {
        "3"
    } else if d == 4 {
        "4"
    } else if d == 5 {
        "5"
    } else if d == 6 {
        "6"
    } else if d == 7 {
        "7"
    } else if d == 8 {
        "8"
    } else {
        "9"
    }
}

/// Writes `n` in decimal.
pub fn decimal_text(n: usize) -> (r: String)
    ensures
        r@ == decimal(n as nat),
    decreases n,
{
    if n < 10 {
        String::from_str(digit_text(n))
    } else {
        let head = decimal_text(n / 10);
        head.concat(digit_text(n % 10))
    }
}

impl DbError {
    /// The message that describes the error.
    pub open spec fn message_spec(&self) -> Seq<char> {
        match self {
            DbError::StoredDimensionMismatch { stored, expected } => "Embedding dimension mismatch: DB has "@
                + decimal(*stored as nat) + ", expected "@ + decimal(*expected as nat),
            DbError::VectorDimensionMismatch { id, expected, found } =>
                "Embedding dimension mismatch for item '"@ + id@ + "'. Expected "@ + decimal(
                *expected as nat,
            ) + ", got "@ + decimal(*found as nat) + "."@,
            DbError::MatrixSizeMismatch { expected, found } => "Matrix size mismatch: expected "@
                + decimal(*expected as nat) + ", got "@ + decimal(*found as nat),
            DbError::UndecodableMatrix => "Matrix is not base64 of 32-bit floats"@,
            DbError::DuplicateId { id } => "Duplicate id in stored data: "@ + id@,
            DbError::CountMismatch { embeddings, ids } => "Embeddings and IDs count mismatch: "@
                + decimal(*embeddings as nat) + " vs "@ + decimal(*ids as nat),
        }
    }

    /// The message that describes the error.
    pub fn message(&self) -> (r: String)
        ensures
            r@ == self.message_spec(),
    {
        match self {
            DbError::StoredDimensionMismatch { stored, expected } => {
                let s = String::from_str("Embedding dimension mismatch: DB has ");
                let s = s.concat(decimal_text(*stored).as_str());
                let s = s.concat(", expected ");
                s.concat(decimal_text(*expected).as_str())
            },
            DbError::VectorDimensionMismatch { id, expected, found } => {
                let s = String::from_str("Embedding dimension mismatch for item '");
                let s = s.concat(id.as_str());
                let s = s.concat("'. Expected ");
                let s = s.concat(decimal_text(*expected).as_str());
                let s = s.concat(", got ");
                let s = s.concat(decimal_text(*found).as_str());
                s.concat(".")
            },
            DbError::MatrixSizeMismatch { expected, found } => {
                let s = String::from_str("Matrix size mismatch: expected ");
                let s = s.concat(decimal_text(*expected).as_str());
                let s = s.concat(", got ");
                s.concat(decimal_text(*found).as_str())
            },
            DbError::UndecodableMatrix => String::from_str("Matrix is not base64 of 32-bit floats"),
            DbError::DuplicateId { id } => {
                let s = String::from_str("Duplicate id in stored data: ");
                s.concat(id.as_str())
            },
            DbError::CountMismatch { embeddings, ids } => {
                let s = String::from_str("Embeddings and IDs count mismatch: ");
                let s = s.concat(decimal_text(*embeddings).as_str());
                let s = s.concat(" vs ");
                s.concat(decimal_text(*ids).as_str())
            },
        }
    }
}

} // verus!

//! The one typed error the library returns, and the frozen exit-code table.
//!
//! | Exit | Code         | Meaning                                       |
//! |------|--------------|-----------------------------------------------|
//! | 0    | —            | Success.                                      |
//! | 1    | `internal`   | Unexpected failure, including a caught panic. |
//! | 2    | `usage`      | The command line was wrong.                   |
//! | 3    | `not_found`  | A sheet, name, cell or part was not found.    |
//! | 4    | `refused`    | A guard said no.                              |
//! | 5    | `unreadable` | Not a package, or the package cannot be read. |

use vstd::prelude::*;

verus! {

/// The exit code of a successful command.
pub const EXIT_SUCCESS: u8 = 0;

/// The exit code of `diff --exit-code` where the two packages differ. It is
/// not an error, and only shares its number with `internal`.
pub const EXIT_DIFFERENT: u8 = 1;

/// The stable, snake-case error code carried by every [`Error`].
#[derive(Debug, Clone, Copy, PartialEq, Eq, Hash, Structural)]
pub enum ErrorCode {
    /// An unexpected failure, including a caught panic. Exit 1.
    Internal,
    /// The command line was wrong. Exit 2.
    Usage,
    /// A sheet, defined name, cell or part was not found. Exit 3.
    NotFound,
    /// A guard refused the operation. Exit 4.
    Refused,
    /// Not a package, or the package cannot be read. Exit 5.
    Unreadable,
}

/// The name a code is reported under.
pub open spec fn code_name(code: ErrorCode) -> Seq<char> {
    match code {
        ErrorCode::Internal => "internal"@,
        ErrorCode::Usage => "usage"@,
        ErrorCode::NotFound => "not_found"@,
        ErrorCode::Refused => "refused"@,
        ErrorCode::Unreadable => "unreadable"@,
    }
}

/// The frozen exit code of a code.
pub open spec fn code_exit(code: ErrorCode) -> u8 {
    match code {
        ErrorCode::Internal => 1,
        ErrorCode::Usage => 2,
        ErrorCode::NotFound => 3,
        ErrorCode::Refused => 4,
        ErrorCode::Unreadable => 5,
    }
}

/// Every code in the frozen table, in exit-code order.
pub open spec fn all_codes() -> Seq<ErrorCode> {
    seq![
        ErrorCode::Internal,
        ErrorCode::Usage,
        ErrorCode::NotFound,
        ErrorCode::Refused,
        ErrorCode::Unreadable,
    ]
}

impl ErrorCode {
    /// Every code in the frozen table, in exit-code order.
    pub const ALL: [ErrorCode; 5] = [
        ErrorCode::Internal,
        ErrorCode::Usage,
        ErrorCode::NotFound,
        ErrorCode::Refused,
        ErrorCode::Unreadable,
    ];

    /// Every code in the frozen table, in exit-code order.
    pub fn all() -> (codes: [ErrorCode; 5])
        ensures
            codes@ == all_codes(),
    {
        let codes = [
            ErrorCode::Internal,
            ErrorCode::Usage,
            ErrorCode::NotFound,
            ErrorCode::Refused,
            ErrorCode::Unreadable,
        ];
        assert(codes@ =~= all_codes());
        codes
    }

    /// The code as it appears in `error.code` in the JSON envelope.
    pub fn as_str(self) -> (name: &'static str)
        ensures
            name@ == code_name(self),
    {
        proof {
            reveal_strlit("internal");
            reveal_strlit("usage");
            reveal_strlit("not_found");
            reveal_strlit("refused");
            reveal_strlit("unreadable");
        }
        match self {
            ErrorCode::Internal => "internal",
            ErrorCode::Usage => "usage",
            ErrorCode::NotFound => "not_found",
            ErrorCode::Refused => "refused",
            ErrorCode::Unreadable => "unreadable",
        }
    }

    /// The process exit code this error code maps to.
    pub fn exit_code(self) -> (exit: u8)
        ensures
            exit == code_exit(self),
    {
        match self {
            ErrorCode::Internal => 1,
            ErrorCode::Usage => 2,
            ErrorCode::NotFound => 3,
            ErrorCode::Refused => 4,
            ErrorCode::Unreadable => 5,
        }
    }
}

/// No code exits with the success code, and no two codes share a name or an
/// exit code: the table is a bijection between the five codes, their names
/// and the exit codes one to five.
pub proof fn lemma_exit_codes_are_distinct_and_nonzero(a: ErrorCode, b: ErrorCode)
    ensures
        code_exit(a) != EXIT_SUCCESS,
        1 <= code_exit(a) <= 5,
        code_exit(a) == code_exit(b) <==> a == b,
        code_name(a) == code_name(b) <==> a == b,
        all_codes().contains(a),
{
    reveal_strlit("internal");
    reveal_strlit("usage");
    reveal_strlit("not_found");
    reveal_strlit("refused");
    reveal_strlit("unreadable");
    assert(all_codes()[0] == ErrorCode::Internal);
    assert(all_codes()[1] == ErrorCode::Usage);
    assert(all_codes()[2] == ErrorCode::NotFound);
    assert(all_codes()[3] == ErrorCode::Refused);
    assert(all_codes()[4] == ErrorCode::Unreadable);
    if code_name(a) == code_name(b) && a != b {
        assert(code_name(a).len() != code_name(b).len() || code_name(a)[0] != code_name(b)[0]
            || code_name(a)[1] != code_name(b)[1]);
    }
}

/// A failure, with the code that decides how it is reported and what the
/// process exits with, and a message that names the fix.
#[derive(Debug, Clone, PartialEq, Eq)]
pub struct Error {
    code: ErrorCode,
    message: String,
}

impl Error {
    /// The code the error carries.
    pub closed spec fn spec_code(&self) -> ErrorCode {
        self.code
    }

    /// The message the error carries.
    pub closed spec fn spec_message(&self) -> Seq<char> {
        self.message@
    }

    /// Build an error with an explicit code.
    pub fn new(code: ErrorCode, message: &str) -> (err: Self)
        ensures
            err.spec_code() == code,
            err.spec_message() == message@,
    {
        Error { code, message: message.to_owned() }
    }

    /// An unexpected failure, including a caught panic. Exit 1.
    pub fn internal(message: &str) -> (err: Self)
        ensures
            err.spec_code() == ErrorCode::Internal,
            err.spec_message() == message@,
    {
        Error::new(ErrorCode::Internal, message)
    }

    /// The command line was wrong. Exit 2.
    pub fn usage(message: &str) -> (err: Self)
        ensures
            err.spec_code() == ErrorCode::Usage,
            err.spec_message() == message@,
    {
        Error::new(ErrorCode::Usage, message)
    }

    /// A sheet, defined name, cell or part was not found. Exit 3.
    pub fn not_found(message: &str) -> (err: Self)
        ensures
            err.spec_code() == ErrorCode::NotFound,
            err.spec_message() == message@,
    {
        Error::new(ErrorCode::NotFound, message)
    }

    /// A guard refused the operation. Exit 4.
    pub fn refused(message: &str) -> (err: Self)
        ensures
            err.spec_code() == ErrorCode::Refused,
            err.spec_message() == message@,
    {
        Error::new(ErrorCode::Refused, message)
    }

    /// Not a package, or the package cannot be read. Exit 5.
    pub fn unreadable(message: &str) -> (err: Self)
        ensures
            err.spec_code() == ErrorCode::Unreadable,
            err.spec_message() == message@,
    {
        Error::new(ErrorCode::Unreadable, message)
    }

    /// The stable code, as it appears in the envelope.
    pub fn code(&self) -> (code: ErrorCode)
        ensures
            code == self.spec_code(),
    {
        self.code
    }

    /// The human-readable message, which should name the fix.
    pub fn message(&self) -> (message: &str)
        ensures
            message@ == self.spec_message(),
    {
        self.message.as_str()
    }

    /// The message, as the error would be displayed.
    pub fn to_string(&self) -> (text: String)
        ensures
            text@ == self.spec_message(),
    {
        self.message.clone()
    }

    /// The process exit code for this error.
    pub fn exit_code(&self) -> (exit: u8)
        ensures
            exit == code_exit(self.spec_code()),
    {
        self.code.exit_code()
    }

    /// The same failure, said again with where it happened in front of it.
    /// The code is kept, because where a failure happened does not change
    /// what it was.
    pub fn within(self, place: &str) -> (err: Self)
        ensures
            err.spec_code() == self.spec_code(),
            err.spec_message() == place@ + ": "@ + self.spec_message(),
    {
        let mut message = String::from_str(place);
        message.append(": ");
        message.append(self.message.as_str());
        Error { code: self.code, message }
    }
}

/// The result of any fallible library operation.
pub type Result<T> = core::result::Result<T, Error>;

} // verus!

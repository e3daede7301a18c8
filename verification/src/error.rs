//! The errors a command reports.

use vstd::prelude::*;

verus! {

/// The kind of an input or output error.
#[derive(Debug, Clone, Copy, PartialEq, Eq, Structural)]
pub enum IoErrorKind {
    NotFound,
    PermissionDenied,
    Other,
}

/// An error of a command.
#[derive(Debug)]
pub enum AppError {
    /// The request breaks a rule.
    Validation(String),
    /// No bot has the given id.
    BotNotFound(String),
    /// A file or directory cannot be used.
    Io(IoErrorKind, String),
    /// The container engine reports an error.
    Docker(String),
    /// A document cannot be read or written as JSON.
    Json(String),
    /// Anything else, in words.
    Other(String),
}

/// An error with its message as a sequence of characters.
pub enum ErrorView {
    Validation(Seq<char>),
    BotNotFound(Seq<char>),
    Io(IoErrorKind, Seq<char>),
    Docker(Seq<char>),
    Json(Seq<char>),
    Other(Seq<char>),
}

impl View for AppError {
    type V = ErrorView;

    open spec fn view(&self) -> ErrorView {
        match self {
            AppError::Validation(m) => ErrorView::Validation(m@),
            AppError::BotNotFound(id) => ErrorView::BotNotFound(id@),
            AppError::Io(kind, m) => ErrorView::Io(*kind, m@),
            AppError::Docker(m) => ErrorView::Docker(m@),
            AppError::Json(m) => ErrorView::Json(m@),
            AppError::Other(m) => ErrorView::Other(m@),
        }
    }
}

/// The result of a command, by the views of its value and its error.
pub open spec fn outcome<T: View>(r: Result<T, AppError>) -> Result<T::V, ErrorView> {
    match r {
        Ok(v) => Ok(v@),
        Err(e) => Err(e@),
    }
}

/// The verdict of a series of checks: the first failure, if there is one.
pub open spec fn first_failure(checks: Seq<Result<(), ErrorView>>) -> Result<(), ErrorView>
    decreases checks.len(),
{
    if checks.len() == 0 {
        Ok(())
    } else if checks[0] is Err {
        checks[0]
    } else {
        first_failure(checks.drop_first())
    }
}

/// If all checks before the `i`th succeed, the verdict is that of the `i`th
/// and later ones; if all succeed, so does the series.
pub proof fn lemma_first_failure(checks: Seq<Result<(), ErrorView>>, i: int)
    requires
        0 <= i <= checks.len(),
        forall|j: int| 0 <= j < i ==> checks[j] is Ok,
    ensures
        i == checks.len() ==> first_failure(checks) == Ok::<(), ErrorView>(()),
        i < checks.len() && checks[i] is Err ==> first_failure(checks) == checks[i],
    decreases i,
{
    if i > 0 {
        let rest = checks.drop_first();
        assert forall|j: int| 0 <= j < i - 1 implies rest[j] is Ok by {
            assert(rest[j] == checks[j + 1]);
        }
        lemma_first_failure(rest, i - 1);
    }
}

/// A series of checks succeeds exactly if each check does; otherwise the
/// verdict is that of a check that fails while all before it succeed.
pub proof fn law_first_failure(checks: Seq<Result<(), ErrorView>>)
    ensures
        first_failure(checks) is Ok <==> forall|i: int|
            0 <= i < checks.len() ==> #[trigger] checks[i] is Ok,
        first_failure(checks) is Err ==> exists|i: int|
            0 <= i < checks.len() && #[trigger] checks[i] == first_failure(checks) && forall|j: int|
                0 <= j < i ==> #[trigger] checks[j] is Ok,
    decreases checks.len(),
{
    if checks.len() > 0 && checks[0] is Ok {
        let rest = checks.drop_first();
        law_first_failure(rest);
        if first_failure(rest) is Err {
            let i = choose|i: int|
                0 <= i < rest.len() && #[trigger] rest[i] == first_failure(rest) && forall|j: int|
                    0 <= j < i ==> #[trigger] rest[j] is Ok;
            assert(checks[i + 1] == rest[i]);
            assert forall|j: int| 0 <= j < i + 1 implies #[trigger] checks[j] is Ok by {
                if j > 0 {
                    assert(rest[j - 1] == checks[j]);
                }
            }
        } else {
            assert forall|j: int| 0 <= j < checks.len() implies #[trigger] checks[j] is Ok by {
                if j > 0 {
                    assert(rest[j - 1] == checks[j]);
                }
            }
        }
    }
}

} // verus!

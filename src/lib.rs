//! Translation of a small clause-based functional language into script functions.
pub mod expression;
pub mod function;
pub mod js;
pub mod list;
pub mod literal;
pub mod tokens;
pub mod translate;
pub mod write;

pub use expression::{BinaryOp, Expression};
pub use function::{Function, Module, Pattern, Statement};
pub use js::{Block, FunctionItem};
pub use list::List;
pub use literal::Literal;
pub use tokens::{Error, FromTokens, LineColumn, Span, Token, Tokens};
pub use translate::{group_clauses, translate, TranslateError};
pub use write::Write;

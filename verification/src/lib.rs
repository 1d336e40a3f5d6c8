//! The core of the Doodle engine: values and arithmetic, the resumable machine that runs
//! a resolved module, and the host surface around it.
pub mod account_laws;
pub mod activation;
pub mod arith;
pub mod assign;
pub mod ast;
pub mod aux_eval;
pub mod bignum;
pub mod binding;
pub mod binding_laws;
pub mod block;
pub mod boundary;
pub mod breakpoint;
pub mod call;
pub mod call_laws;
pub mod collect;
pub mod compare;
pub mod cont;
pub mod context;
pub mod control;
pub mod control_laws;
pub mod dict;
pub mod dict_laws;
pub mod drive;
pub mod dynamic;
pub mod error;
pub mod eval;
pub mod eval_laws;
pub mod exception;
pub mod fit_laws;
pub mod float;
pub mod frame;
pub mod gc;
pub mod globals;
pub mod handle;
pub mod hash;
pub mod heap;
pub mod holding;
pub mod holding_steps;
pub mod host_laws;
pub mod import_laws;
pub mod importing;
pub mod index;
pub mod inspect;
pub mod instance;
pub mod intrinsic;
pub mod key_laws;
pub mod key_life;
pub mod life_laws;
pub mod limits;
pub mod load;
pub mod local;
pub mod machine;
pub mod making_laws;
pub mod modload;
pub mod named;
pub mod names;
pub mod native;
pub mod natives;
pub mod number;
pub mod number_laws;
pub mod object;
pub mod observe;
pub mod observe_laws;
pub mod order_laws;
pub mod place_laws;
pub mod postmortem;
pub mod prelude_laws;
pub mod protect;
pub mod protocol;
pub mod record;
pub mod render;
pub mod replay;
pub mod resolve;
pub mod ring;
pub mod root_laws;
pub mod scope;
pub mod sealing;
pub mod serving_laws;
pub mod shape_laws;
pub mod siphash;
pub mod sourcing;
pub mod span;
pub mod step;
pub mod text;
pub mod tokens;
pub mod turn;
pub mod turn_laws;
pub mod unicode;
pub mod unwind;
pub mod upkeep;
pub mod value;
pub mod value_laws;
pub mod values;
pub mod work_laws;

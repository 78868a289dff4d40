//! Small contract logic: a greeting, a counter that stops at zero, and a
//! token ledger with authorization and conservation guarantees.

mod hello_world;
mod increment;
mod laws;
mod token;

pub use hello_world::HelloWorld;
pub use increment::Increment;
pub use laws::{
    applied, involves, lemma_mints_conserve, lemma_transfer_conserves, lemma_untouched_stays_zero,
    sum, Op,
};
pub use token::{
    balance_in, fits_i128, is_signed, minted, owners_unique, total, transferred, Address, Config,
    Entry, Token, TokenError,
};

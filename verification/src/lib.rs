//! Texas Hold'em engine: a five-card hand evaluator with a verified total
//! order on hand strength, and a betting state machine (seats, blinds, pot,
//! turn rotation, showdown) over an in-memory registry of players and games.

pub mod centrale;
pub mod kaart;
pub mod spel;
pub mod toeval;

pub use spel::Actie;
pub use spel::Bericht;
pub use spel::PokbotcomError;
pub use spel::PokbotcomMelding;
pub use spel::Spel;
pub use spel::SpelId;
pub use spel::SpelStatus;
pub use spel::Speler;
pub use spel::SpelerId;
pub use spel::BIG_BLIND;
pub use spel::CHIPS_PER_SPELER;
pub use spel::SMALL_BLIND;
pub use centrale::Centrale;

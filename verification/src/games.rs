pub mod impasse;
pub mod tic_tac_toe;

pub mod stdenvs;

pub mod identifier_matches_filename;
pub mod implicit_case_default;
pub mod parameter_in_package;

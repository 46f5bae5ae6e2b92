use vstd::prelude::*;

verus! {

/// The arguments of one transfer between a columnar file and the host.
pub struct ReadParams {
    pub path: String,
    pub variables_as_str: String,
    pub n_rows: usize,
    pub offset: usize,
    pub sql_if: Option<String>,
    pub mapping: String,
}

impl ReadParams {
    pub fn new(
        path: String,
        variables_as_str: String,
        n_rows: usize,
        offset: usize,
        sql_if: Option<String>,
        mapping: String,
    ) -> (r: Self)
        ensures
            r == (ReadParams { path, variables_as_str, n_rows, offset, sql_if, mapping }),
    {
        ReadParams { path, variables_as_str, n_rows, offset, sql_if, mapping }
    }
}

} // verus!

use vstd::prelude::*;

use crate::error::AppError;
use crate::fields_subset::{opt_view, subset_of, FieldsSubset, KindModel};

verus! {

/// How the rows are written out.
#[derive(Debug, Clone, Copy, PartialEq, Eq, Structural)]
pub enum OutputFormat {
    /// An aligned table with borders.
    Table { has_header: bool, include_header_indexes: bool },
    /// Fields joined by the given delimiter.
    Delimited(char),
}

/// The output format that the user's flags select. An output delimiter
/// implies delimited output; column numbers are shown only in a table with
/// a header and without a column subset.
pub open spec fn format_of(
    delimited_format: bool,
    output_delimiter: Option<char>,
    no_header: bool,
    include_header_indexes: bool,
    subset: KindModel,
) -> OutputFormat {
    match output_delimiter {
        Some(c) => OutputFormat::Delimited(c),
        None => if delimited_format {
            OutputFormat::Delimited('\t')
        } else {
            OutputFormat::Table {
                has_header: !no_header,
                include_header_indexes: !no_header && include_header_indexes && subset is All,
            }
        },
    }
}

/// Everything a run needs besides the input and its delimiter.
pub struct RunOptions {
    pub fields_subset: FieldsSubset,
    pub output_format: OutputFormat,
}

impl RunOptions {
    pub fn new(
        number_fields: &Option<String>,
        named_fields: &Option<String>,
        delimited_format: bool,
        output_delimiter: Option<char>,
        no_header: bool,
        include_header_indexes: bool,
    ) -> (r: Result<RunOptions, AppError>)
        ensures
            match subset_of(opt_view(*number_fields), opt_view(*named_fields)) {
                Ok(k) => r is Ok && r->Ok_0.fields_subset@ == k && r->Ok_0.output_format == format_of(
                    delimited_format,
                    output_delimiter,
                    no_header,
                    include_header_indexes,
                    k,
                ),
                Err(e) => r is Err && r->Err_0@ == e,
            },
    {
        let fields_subset = match FieldsSubset::new(number_fields, named_fields) {
            Ok(s) => s,
            Err(e) => return Err(e),
        };
        let output_format = match output_delimiter {
            Some(c) => OutputFormat::Delimited(c),
            None => {
                if delimited_format {
                    OutputFormat::Delimited('\t')
                } else {
                    OutputFormat::Table {
                        has_header: !no_header,
                        include_header_indexes: !no_header && include_header_indexes
                            && fields_subset.is_none(),
                    }
                }
            },
        };
        Ok(RunOptions { fields_subset, output_format })
    }
}

} // verus!

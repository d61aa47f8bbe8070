//! Descriptions of the supported championships: display name and the
//! FIA documents page each one is scraped from.

use vstd::prelude::*;

verus! {

/// One championship: its kind, display name, and index page URL.
pub struct Series {
    pub kind: crate::model::Series,
    pub name: &'static str,
    pub data_source: &'static str,
}

impl Series {
    /// Formula 1.
    pub fn f1() -> (r: Series)
        ensures
            r.kind == crate::model::Series::F1,
            r.name@ == "Formula 1"@,
            r.data_source@
                == "https://www.fia.com/documents/championships/fia-formula-one-world-championship-14/season/season-2023-2042"@,
    {
        Series {
            kind: crate::model::Series::F1,
            name: "Formula 1",
            data_source: "https://www.fia.com/documents/championships/fia-formula-one-world-championship-14/season/season-2023-2042",
        }
    }

    /// Formula 2.
    pub fn f2() -> (r: Series)
        ensures
            r.kind == crate::model::Series::F2,
            r.name@ == "Formula 2"@,
            r.data_source@
                == "https://www.fia.com/documents/season/season-2023-2042/championships/formula-2-championship-44"@,
    {
        Series {
            kind: crate::model::Series::F2,
            name: "Formula 2",
            data_source: "https://www.fia.com/documents/season/season-2023-2042/championships/formula-2-championship-44",
        }
    }

    /// FIA Formula 3.
    pub fn f3() -> (r: Series)
        ensures
            r.kind == crate::model::Series::F3,
            r.name@ == "FIA Formula 3"@,
            r.data_source@
                == "https://www.fia.com/documents/season/season-2023-2042/championships/fia-formula-3-championship-1012"@,
    {
        Series {
            kind: crate::model::Series::F3,
            name: "FIA Formula 3",
            data_source: "https://www.fia.com/documents/season/season-2023-2042/championships/fia-formula-3-championship-1012",
        }
    }
}

} // verus!

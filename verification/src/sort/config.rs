use vstd::prelude::*;

verus! {

/// Overrides the priority of one mark word; matched case-insensitively.
#[derive(Clone, Debug)]
pub struct MarkPriorityOverride {
    pub mark: String,
    pub priority: u8,
}

/// Ordering configuration of the mark stage: explicit priority overrides.
#[derive(Clone, Debug)]
pub struct MarkSortConfig {
    pub overrides: Vec<MarkPriorityOverride>,
}

impl Default for MarkSortConfig {
    fn default() -> (r: MarkSortConfig)
        ensures
            r.overrides@.len() == 0,
    {
        MarkSortConfig { overrides: Vec::new() }
    }
}

/// How language groups are ordered.
#[derive(Clone, Copy, Debug, Eq, PartialEq, Structural)]
pub enum LanguageOrder {
    /// Group count descending, then tag ascending.
    CountDescNameAsc,
    /// Tag ascending.
    NameAsc,
}

impl Default for LanguageOrder {
    fn default() -> (r: LanguageOrder)
        ensures
            r == LanguageOrder::CountDescNameAsc,
    {
        LanguageOrder::CountDescNameAsc
    }
}

/// Ordering configuration of the language stage.
#[derive(Clone, Copy, Debug, Eq, PartialEq, Structural)]
pub struct LanguageSortConfig {
    pub order: LanguageOrder,
}

impl Default for LanguageSortConfig {
    fn default() -> (r: LanguageSortConfig)
        ensures
            r.order == LanguageOrder::CountDescNameAsc,
    {
        LanguageSortConfig { order: LanguageOrder::CountDescNameAsc }
    }
}

/// Ascending or descending.
#[derive(Clone, Copy, Debug, Eq, PartialEq, Structural)]
pub enum Order {
    Asc,
    Desc,
}

impl Default for Order {
    fn default() -> (r: Order)
        ensures
            r == Order::Asc,
    {
        Order::Asc
    }
}

/// Ordering configuration of the path stage.
#[derive(Clone, Copy, Debug, Eq, PartialEq, Structural)]
pub struct PathSortConfig {
    pub order: Order,
}

impl Default for PathSortConfig {
    fn default() -> (r: PathSortConfig)
        ensures
            r.order == Order::Asc,
    {
        PathSortConfig { order: Order::Asc }
    }
}

/// Ordering configuration of the folder stage: how many leading path
/// components form the group key, and the direction.
#[derive(Clone, Copy, Debug, Eq, PartialEq, Structural)]
pub struct FolderSortConfig {
    pub depth: usize,
    pub order: Order,
}

impl Default for FolderSortConfig {
    fn default() -> (r: FolderSortConfig)
        ensures
            r.depth == 1 && r.order == Order::Asc,
    {
        FolderSortConfig { depth: 1, order: Order::Asc }
    }
}

/// One stage of the grouping pipeline: a dimension with its ordering
/// configuration.
#[derive(Clone, Debug)]
pub enum DimensionStage {
    Mark(MarkSortConfig),
    Language(LanguageSortConfig),
    Path(PathSortConfig),
    Folder(FolderSortConfig),
}

impl DimensionStage {
    pub open spec fn spec_dimension(&self) -> crate::model::Dimension {
        match self {
            DimensionStage::Mark(_) => crate::model::Dimension::Mark,
            DimensionStage::Language(_) => crate::model::Dimension::Language,
            DimensionStage::Path(_) => crate::model::Dimension::Path,
            DimensionStage::Folder(_) => crate::model::Dimension::Folder,
        }
    }

    /// The dimension this stage groups by.
    pub fn dimension(&self) -> (r: crate::model::Dimension)
        ensures
            r == self.spec_dimension(),
    {
        match self {
            DimensionStage::Mark(_) => crate::model::Dimension::Mark,
            DimensionStage::Language(_) => crate::model::Dimension::Language,
            DimensionStage::Path(_) => crate::model::Dimension::Path,
            DimensionStage::Folder(_) => crate::model::Dimension::Folder,
        }
    }
}

/// The staged grouping pipeline; an empty pipeline leaves the input as it
/// came.
#[derive(Clone, Debug)]
pub struct SortConfig {
    pub pipeline: Vec<DimensionStage>,
}

impl SortConfig {
    pub fn with_pipeline(pipeline: Vec<DimensionStage>) -> (r: SortConfig)
        ensures
            r.pipeline == pipeline,
    {
        SortConfig { pipeline }
    }
}

impl Default for SortConfig {
    /// The default pipeline: group by mark, then by language.
    fn default() -> (r: SortConfig)
        ensures
            r.pipeline@.len() == 2,
            r.pipeline@[0] is Mark,
            r.pipeline@[1] is Language,
            r.pipeline@[0]->Mark_0.overrides@.len() == 0,
            r.pipeline@[1]->Language_0.order == LanguageOrder::CountDescNameAsc,
    {
        SortConfig {
            pipeline: vec![
                DimensionStage::Mark(MarkSortConfig::default()),
                DimensionStage::Language(LanguageSortConfig::default()),
            ],
        }
    }
}

} // verus!

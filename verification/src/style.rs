//! The small enums that choose a style, and the CSS class each names.
use vstd::prelude::*;

verus! {

/// Colour of a badge.
#[derive(Debug, Clone, Copy, PartialEq, Eq, Structural, Default)]
pub enum BadgeVariant {
    #[default]
    Default,
    Success,
    Warning,
    Error,
    Info,
}

impl BadgeVariant {
    /// The CSS class for this choice.
    pub fn class_name(&self) -> (s: &'static str)
        ensures
            s@ == match *self {
                BadgeVariant::Default => "uikit-badge-default"@,
                BadgeVariant::Success => "uikit-badge-success"@,
                BadgeVariant::Warning => "uikit-badge-warning"@,
                BadgeVariant::Error => "uikit-badge-error"@,
                BadgeVariant::Info => "uikit-badge-info"@,
            },
    {
        match self {
            BadgeVariant::Default => "uikit-badge-default",
            BadgeVariant::Success => "uikit-badge-success",
            BadgeVariant::Warning => "uikit-badge-warning",
            BadgeVariant::Error => "uikit-badge-error",
            BadgeVariant::Info => "uikit-badge-info",
        }
    }
}

/// Size of a badge.
#[derive(Debug, Clone, Copy, PartialEq, Eq, Structural, Default)]
pub enum BadgeSize {
    #[default]
    Normal,
    Large,
}

impl BadgeSize {
    /// The CSS class for this choice.
    pub fn class_name(&self) -> (s: &'static str)
        ensures
            s@ == match *self {
                BadgeSize::Normal => "uikit-badge-normal"@,
                BadgeSize::Large => "uikit-badge-lg"@,
            },
    {
        match self {
            BadgeSize::Normal => "uikit-badge-normal",
            BadgeSize::Large => "uikit-badge-lg",
        }
    }
}

/// Size of a spinner.
#[derive(Debug, Clone, Copy, PartialEq, Eq, Structural, Default)]
pub enum SpinnerSize {
    Small,
    #[default]
    Medium,
    Large,
}

impl SpinnerSize {
    /// The CSS class for this choice.
    pub fn class_name(&self) -> (s: &'static str)
        ensures
            s@ == match *self {
                SpinnerSize::Small => "uikit-spinner-sm"@,
                SpinnerSize::Medium => "uikit-spinner-md"@,
                SpinnerSize::Large => "uikit-spinner-lg"@,
            },
    {
        match self {
            SpinnerSize::Small => "uikit-spinner-sm",
            SpinnerSize::Medium => "uikit-spinner-md",
            SpinnerSize::Large => "uikit-spinner-lg",
        }
    }
}

/// Colour of a spinner.
#[derive(Debug, Clone, Copy, PartialEq, Eq, Structural, Default)]
pub enum SpinnerVariant {
    Primary,
    Secondary,
    Success,
    Warning,
    Error,
    Info,
    #[default]
    Inherit,
}

impl SpinnerVariant {
    /// The CSS class for this choice.
    pub fn class_name(&self) -> (s: &'static str)
        ensures
            s@ == match *self {
                SpinnerVariant::Primary => "uikit-spinner-primary"@,
                SpinnerVariant::Secondary => "uikit-spinner-secondary"@,
                SpinnerVariant::Success => "uikit-spinner-success"@,
                SpinnerVariant::Warning => "uikit-spinner-warning"@,
                SpinnerVariant::Error => "uikit-spinner-error"@,
                SpinnerVariant::Info => "uikit-spinner-info"@,
                SpinnerVariant::Inherit => "uikit-spinner-inherit"@,
            },
    {
        match self {
            SpinnerVariant::Primary => "uikit-spinner-primary",
            SpinnerVariant::Secondary => "uikit-spinner-secondary",
            SpinnerVariant::Success => "uikit-spinner-success",
            SpinnerVariant::Warning => "uikit-spinner-warning",
            SpinnerVariant::Error => "uikit-spinner-error",
            SpinnerVariant::Info => "uikit-spinner-info",
            SpinnerVariant::Inherit => "uikit-spinner-inherit",
        }
    }
}

/// Look of a button.
#[derive(Debug, Clone, Copy, PartialEq, Eq, Structural, Default)]
pub enum ButtonVariant {
    #[default]
    Primary,
    Secondary,
    Outline,
    Text,
}

impl ButtonVariant {
    /// The CSS class for this choice.
    pub fn class_name(&self) -> (s: &'static str)
        ensures
            s@ == match *self {
                ButtonVariant::Primary => "uikit-btn-primary"@,
                ButtonVariant::Secondary => "uikit-btn-secondary"@,
                ButtonVariant::Outline => "uikit-btn-outline"@,
                ButtonVariant::Text => "uikit-btn-text"@,
            },
    {
        match self {
            ButtonVariant::Primary => "uikit-btn-primary",
            ButtonVariant::Secondary => "uikit-btn-secondary",
            ButtonVariant::Outline => "uikit-btn-outline",
            ButtonVariant::Text => "uikit-btn-text",
        }
    }
}

/// Size of a button.
#[derive(Debug, Clone, Copy, PartialEq, Eq, Structural, Default)]
pub enum ButtonSize {
    Small,
    #[default]
    Medium,
    Large,
}

impl ButtonSize {
    /// The CSS class for this choice.
    pub fn class_name(&self) -> (s: &'static str)
        ensures
            s@ == match *self {
                ButtonSize::Small => "uikit-btn-sm"@,
                ButtonSize::Medium => "uikit-btn-md"@,
                ButtonSize::Large => "uikit-btn-lg"@,
            },
    {
        match self {
            ButtonSize::Small => "uikit-btn-sm",
            ButtonSize::Medium => "uikit-btn-md",
            ButtonSize::Large => "uikit-btn-lg",
        }
    }
}

/// Kind of a notification.
#[derive(Debug, Clone, Copy, PartialEq, Eq, Structural, Default)]
pub enum NotificationVariant {
    #[default]
    Info,
    Success,
    Warning,
    Error,
}

impl NotificationVariant {
    /// The CSS class for this choice.
    pub fn class_name(&self) -> (s: &'static str)
        ensures
            s@ == match *self {
                NotificationVariant::Info => "uikit-notification-info"@,
                NotificationVariant::Success => "uikit-notification-success"@,
                NotificationVariant::Warning => "uikit-notification-warning"@,
                NotificationVariant::Error => "uikit-notification-error"@,
            },
    {
        match self {
            NotificationVariant::Info => "uikit-notification-info",
            NotificationVariant::Success => "uikit-notification-success",
            NotificationVariant::Warning => "uikit-notification-warning",
            NotificationVariant::Error => "uikit-notification-error",
        }
    }
}

/// Size of a value shown with its unit.
#[derive(Debug, Clone, Copy, PartialEq, Eq, Structural, Default)]
pub enum UnitSize {
    Small,
    Medium,
    #[default]
    Large,
}

impl UnitSize {
    /// The CSS class for this choice.
    pub fn class_name(&self) -> (s: &'static str)
        ensures
            s@ == match *self {
                UnitSize::Small => "uikit-value-with-unit-sm"@,
                UnitSize::Medium => "uikit-value-with-unit-md"@,
                UnitSize::Large => "uikit-value-with-unit-lg"@,
            },
    {
        match self {
            UnitSize::Small => "uikit-value-with-unit-sm",
            UnitSize::Medium => "uikit-value-with-unit-md",
            UnitSize::Large => "uikit-value-with-unit-lg",
        }
    }
}

/// Where a form field puts its label.
#[derive(Debug, Clone, Copy, PartialEq, Eq, Structural, Default)]
pub enum LabelLayout {
    #[default]
    Top,
    Left,
}

impl LabelLayout {
    /// The CSS class for this choice.
    pub fn class_name(&self) -> (s: &'static str)
        ensures
            s@ == match *self {
                LabelLayout::Top => "uikit-field-layout-top"@,
                LabelLayout::Left => "uikit-field-layout-left"@,
            },
    {
        match self {
            LabelLayout::Top => "uikit-field-layout-top",
            LabelLayout::Left => "uikit-field-layout-left",
        }
    }
}

/// Alignment of a table column.
#[derive(Debug, Clone, Copy, PartialEq, Eq, Structural, Default)]
pub enum TableAlign {
    #[default]
    Left,
    Center,
    Right,
}

impl TableAlign {
    /// The CSS class for this choice.
    pub fn class_name(&self) -> (s: &'static str)
        ensures
            s@ == match *self {
                TableAlign::Left => "uikit-table-align-left"@,
                TableAlign::Center => "uikit-table-align-center"@,
                TableAlign::Right => "uikit-table-align-right"@,
            },
    {
        match self {
            TableAlign::Left => "uikit-table-align-left",
            TableAlign::Center => "uikit-table-align-center",
            TableAlign::Right => "uikit-table-align-right",
        }
    }
}

/// The level of a heading, `h1` to `h6`.
#[derive(Debug, Clone, Copy, PartialEq, Eq, Structural, Default)]
pub enum HeadingLevel {
    H1,
    #[default]
    H2,
    H3,
    H4,
    H5,
    H6,
}

/// How a table column is sorted.
#[derive(Debug, Clone, Copy, PartialEq, Eq, Structural)]
pub enum SortDirection {
    Ascending,
    Descending,
    Unsorted,
}

impl SortDirection {
    /// The order a sortable column header moves to when clicked: unsorted,
    /// then ascending, then descending, then unsorted again.
    pub fn next(self) -> (d: SortDirection)
        ensures
            d == match self {
                SortDirection::Unsorted => SortDirection::Ascending,
                SortDirection::Ascending => SortDirection::Descending,
                SortDirection::Descending => SortDirection::Unsorted,
            },
    {
        match self {
            SortDirection::Unsorted => SortDirection::Ascending,
            SortDirection::Ascending => SortDirection::Descending,
            SortDirection::Descending => SortDirection::Unsorted,
        }
    }
}

impl SortDirection {
    /// The marker a sortable header shows for this direction.
    pub fn icon(self) -> (s: &'static str)
        ensures
            s@ == match self {
                SortDirection::Ascending => " ▲"@,
                SortDirection::Descending => " ▼"@,
                SortDirection::Unsorted => " ⇅"@,
            },
    {
        match self {
            SortDirection::Ascending => " ▲",
            SortDirection::Descending => " ▼",
            SortDirection::Unsorted => " ⇅",
        }
    }
}

/// The direction a table header shows: on the active column the active
/// direction (unsorted when none is given), on any other column unsorted.
pub fn column_sort_direction(
    column_id: &str,
    active_sort_col: &Option<String>,
    active_sort_dir: Option<SortDirection>,
) -> (d: SortDirection)
    ensures
        d == (if active_sort_col matches Some(c) && c@ == column_id@ {
            match active_sort_dir {
                Some(x) => x,
                None => SortDirection::Unsorted,
            }
        } else {
            SortDirection::Unsorted
        }),
{
    let id = column_id.to_owned();
    match active_sort_col {
        Some(c) => {
            if *c == id {
                match active_sort_dir {
                    Some(x) => x,
                    None => SortDirection::Unsorted,
                }
            } else {
                SortDirection::Unsorted
            }
        },
        None => SortDirection::Unsorted,
    }
}

pub open spec fn next_sort_spec(d: SortDirection) -> SortDirection {
    match d {
        SortDirection::Unsorted => SortDirection::Ascending,
        SortDirection::Ascending => SortDirection::Descending,
        SortDirection::Descending => SortDirection::Unsorted,
    }
}

/// Three clicks on a sortable header bring it back to where it was, and no
/// fewer do.
pub proof fn law_sort_cycle(d: SortDirection)
    ensures
        next_sort_spec(next_sort_spec(next_sort_spec(d))) == d,
        next_sort_spec(d) != d,
        next_sort_spec(next_sort_spec(d)) != d,
{
}

/// Which way a stacked bar chart runs.
#[derive(Debug, Clone, Copy, PartialEq, Eq, Structural)]
pub enum ChartOrientation {
    Horizontal,
    Vertical,
}

impl Default for ChartOrientation {
    fn default() -> (o: Self)
        ensures
            o == ChartOrientation::Horizontal,
    {
        ChartOrientation::Horizontal
    }
}

/// Whether editable text shows its formatting toolbar.
#[derive(Debug, Clone, Copy, PartialEq, Eq, Structural, Default)]
pub enum EditableTextVariant {
    #[default]
    Full,
    /// Edits the rendered text in place without showing the toolbar.
    Inline,
}

/// The tab a colour picker shows.
#[derive(Debug, Clone, Copy, PartialEq, Eq, Structural)]
pub enum ColorPickerMode {
    Presets,
    Hex,
    Rgb,
    Hsl,
    Canvas,
}

/// The shape of a video being recorded.
#[derive(Debug, Clone, Copy, PartialEq, Eq, Structural, Default)]
pub enum AspectRatio {
    #[default]
    Landscape16x9,
    Portrait9x16,
}

impl AspectRatio {
    /// The ratio as it is labelled.
    pub fn label(self) -> (s: &'static str)
        ensures
            s@ == match self {
                AspectRatio::Landscape16x9 => "16:9"@,
                AspectRatio::Portrait9x16 => "9:16"@,
            },
    {
        match self {
            AspectRatio::Landscape16x9 => "16:9",
            AspectRatio::Portrait9x16 => "9:16",
        }
    }

    /// The recording size in pixels, width first.
    pub fn dimensions(self) -> (d: (u32, u32))
        ensures
            d == match self {
                AspectRatio::Landscape16x9 => (1920u32, 1080u32),
                AspectRatio::Portrait9x16 => (1080u32, 1920u32),
            },
    {
        match self {
            AspectRatio::Landscape16x9 => (1920, 1080),
            AspectRatio::Portrait9x16 => (1080, 1920),
        }
    }

    /// Taller than wide.
    pub fn is_portrait(self) -> (b: bool)
        ensures
            b == (self == AspectRatio::Portrait9x16),
            b == (self.dimensions_spec().1 > self.dimensions_spec().0),
    {
        match self {
            AspectRatio::Portrait9x16 => true,
            AspectRatio::Landscape16x9 => false,
        }
    }

    pub open spec fn dimensions_spec(self) -> (u32, u32) {
        match self {
            AspectRatio::Landscape16x9 => (1920u32, 1080u32),
            AspectRatio::Portrait9x16 => (1080u32, 1920u32),
        }
    }
}

} // verus!

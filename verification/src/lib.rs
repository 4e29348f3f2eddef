//! Verified core of a component kit: form flow, dates, colours, hierarchy
//! editing and the small enums that name styles.
pub mod bill;
pub mod branches;
pub mod color;
pub mod datetime;
pub mod flow;
pub mod form;
pub mod graph;
pub mod markup;
pub mod menu;
pub mod otp;
pub mod style;
pub mod text;
pub mod viewer;

pub use bill::{BillStatus, CurrencyPosition};
pub use color::RgbColor;
pub use form::answer::{AnswerSheet, QuestionAnswer};
pub use form::condition::Condition;
pub use form::engine::FormFlowEngine;
pub use form::question::{Question, QuestionOption, QuestionType};
pub use graph::{
    ArrowHead, EdgeType, GraphEdgeData, GraphNodeData, HierarchyGraphModel, HierarchyNode,
    NodeShape,
};
pub use style::{
    AspectRatio, BadgeSize, BadgeVariant, ButtonSize, ButtonVariant, ChartOrientation,
    ColorPickerMode, EditableTextVariant, HeadingLevel, LabelLayout, NotificationVariant,
    SortDirection, SpinnerSize, SpinnerVariant, TableAlign, UnitSize,
};

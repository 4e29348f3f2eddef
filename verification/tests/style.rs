use ui_kit::style::column_sort_direction;
use ui_kit::{AspectRatio, BadgeSize, BadgeVariant, BillStatus, ButtonSize, ButtonVariant, ChartOrientation, HeadingLevel, LabelLayout, NotificationVariant, SortDirection, SpinnerSize, SpinnerVariant, TableAlign, UnitSize};

#[test]
fn ratios_expose_recording_dimensions() {
    assert_eq!(AspectRatio::Landscape16x9.dimensions(), (1920, 1080));
    assert_eq!(AspectRatio::Portrait9x16.dimensions(), (1080, 1920));
}

#[test]
fn ratios_are_labelled() {
    assert_eq!(AspectRatio::Landscape16x9.label(), "16:9");
    assert_eq!(AspectRatio::Portrait9x16.label(), "9:16");
    assert!(AspectRatio::Portrait9x16.is_portrait());
    assert!(!AspectRatio::default().is_portrait());
}

#[test]
fn style_choices_name_their_classes() {
    assert_eq!(BadgeVariant::default().class_name(), "uikit-badge-default");
    assert_eq!(BadgeSize::Large.class_name(), "uikit-badge-lg");
    assert_eq!(SpinnerSize::default().class_name(), "uikit-spinner-md");
    assert_eq!(SpinnerVariant::default().class_name(), "uikit-spinner-inherit");
    assert_eq!(ButtonVariant::Text.class_name(), "uikit-btn-text");
    assert_eq!(ButtonSize::Small.class_name(), "uikit-btn-sm");
    assert_eq!(NotificationVariant::Error.class_name(), "uikit-notification-error");
    assert_eq!(UnitSize::default().class_name(), "uikit-value-with-unit-lg");
    assert_eq!(LabelLayout::Left.class_name(), "uikit-field-layout-left");
    assert_eq!(TableAlign::Center.class_name(), "uikit-table-align-center");
    assert_eq!(ChartOrientation::default(), ChartOrientation::Horizontal);
    assert_eq!(HeadingLevel::default(), HeadingLevel::H2);
}

#[test]
fn sort_direction_cycles_in_three_clicks() {
    let d = SortDirection::Unsorted;
    assert_eq!(d.next(), SortDirection::Ascending);
    assert_eq!(d.next().next(), SortDirection::Descending);
    assert_eq!(d.next().next().next(), SortDirection::Unsorted);
}

#[test]
fn bill_statuses_have_labels_and_badges() {
    assert_eq!(BillStatus::default().label(), "Pending Payment");
    assert_eq!(BillStatus::Refunded.label(), "Refunded");
    assert_eq!(BillStatus::Paid.badge_variant(), BadgeVariant::Success);
    assert_eq!(BillStatus::Cancelled.badge_variant(), BadgeVariant::Default);
}

#[test]
fn headers_show_the_active_sort_only_on_its_column() {
    let active = Some("name".to_string());
    assert_eq!(column_sort_direction("name", &active, Some(SortDirection::Descending)), SortDirection::Descending);
    assert_eq!(column_sort_direction("name", &active, None), SortDirection::Unsorted);
    assert_eq!(column_sort_direction("age", &active, Some(SortDirection::Ascending)), SortDirection::Unsorted);
    assert_eq!(column_sort_direction("name", &None, Some(SortDirection::Ascending)), SortDirection::Unsorted);
}

#[test]
fn sort_markers_follow_the_direction() {
    assert_eq!(SortDirection::Ascending.icon(), " \u{25b2}");
    assert_eq!(SortDirection::Descending.icon(), " \u{25bc}");
    assert_eq!(SortDirection::Unsorted.icon(), " \u{21c5}");
}

//! The data of the trend charts, computed from the CSV summaries, and the HTML pages that
//! show them.
pub mod bars;
pub mod contributors;
pub mod markup;
pub mod notes;
pub mod page;
pub mod palette;
pub mod series;

pub use bars::{label_breakdown, label_counts_over_time, open_closed_by_label};
pub use contributors::{
    contributor_heatmap, unique_contributors_monthly, unique_contributors_yearly,
};
pub use series::{discussion_trend, integration_trends, monthly_trend};

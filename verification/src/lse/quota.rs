//! The shared streaming and export allowance, as the provider reports it.

use vstd::prelude::*;
use vstd::string::*;
use crate::text;
use crate::text::{number_text, signed_number_text};

verus! {

/// Where the shared allowance stands.
#[derive(Clone, Copy, PartialEq, Eq, Structural, Debug, Hash)]
pub struct QuotaStatus {
    pub bytes_used_month: u64,
    pub bytes_cap_month: u64,
    pub bytes_used_week: u64,
    pub bytes_cap_week: u64,
    pub exports_this_hour: u64,
    pub exports_cap_hour: u64,
    /// Negative where there is no limit.
    pub historical_data_months: i64,
    pub calls_per_minute: u64,
    pub max_rows_per_request: u64,
    pub vault_concurrency: u64,
}

impl QuotaStatus {
    /// The position as text.
    pub open spec fn text(self) -> Seq<char> {
        "QuotaStatus { bytes_used_month: "@ + text::decimal_text(self.bytes_used_month as nat)
            + ", bytes_cap_month: "@ + text::decimal_text(self.bytes_cap_month as nat)
            + ", bytes_used_week: "@ + text::decimal_text(self.bytes_used_week as nat)
            + ", bytes_cap_week: "@ + text::decimal_text(self.bytes_cap_week as nat)
            + ", exports_this_hour: "@ + text::decimal_text(self.exports_this_hour as nat)
            + ", exports_cap_hour: "@ + text::decimal_text(self.exports_cap_hour as nat)
            + ", historical_data_months: "@ + text::signed_decimal_text(self.historical_data_months as int)
            + ", calls_per_minute: "@ + text::decimal_text(self.calls_per_minute as nat)
            + ", max_rows_per_request: "@ + text::decimal_text(self.max_rows_per_request as nat)
            + ", vault_concurrency: "@ + text::decimal_text(self.vault_concurrency as nat) + " }"@
    }

    /// The position as text.
    pub fn describe(&self) -> (r: String)
        ensures
            r@ == self.text(),
    {
        let mut out = String::from_str("QuotaStatus { bytes_used_month: ");
        out.append(number_text(self.bytes_used_month).as_str());
        out.append(", bytes_cap_month: ");
        out.append(number_text(self.bytes_cap_month).as_str());
        out.append(", bytes_used_week: ");
        out.append(number_text(self.bytes_used_week).as_str());
        out.append(", bytes_cap_week: ");
        out.append(number_text(self.bytes_cap_week).as_str());
        out.append(", exports_this_hour: ");
        out.append(number_text(self.exports_this_hour).as_str());
        out.append(", exports_cap_hour: ");
        out.append(number_text(self.exports_cap_hour).as_str());
        out.append(", historical_data_months: ");
        out.append(signed_number_text(self.historical_data_months).as_str());
        out.append(", calls_per_minute: ");
        out.append(number_text(self.calls_per_minute).as_str());
        out.append(", max_rows_per_request: ");
        out.append(number_text(self.max_rows_per_request).as_str());
        out.append(", vault_concurrency: ");
        out.append(number_text(self.vault_concurrency).as_str());
        out.append(" }");
        out
    }
}

/// The text of a position names every number, each behind the name of its own field and before that of the next.
pub proof fn law_positions_name_every_number(status: QuotaStatus)
    ensures
        text::names_in_order(
            status.text(),
            seq![
                "QuotaStatus { bytes_used_month: "@,
                text::decimal_text(status.bytes_used_month as nat),
                ", bytes_cap_month: "@,
                text::decimal_text(status.bytes_cap_month as nat),
                ", bytes_used_week: "@,
                text::decimal_text(status.bytes_used_week as nat),
                ", bytes_cap_week: "@,
                text::decimal_text(status.bytes_cap_week as nat),
                ", exports_this_hour: "@,
                text::decimal_text(status.exports_this_hour as nat),
                ", exports_cap_hour: "@,
                text::decimal_text(status.exports_cap_hour as nat),
                ", historical_data_months: "@,
                text::signed_decimal_text(status.historical_data_months as int),
                ", calls_per_minute: "@,
                text::decimal_text(status.calls_per_minute as nat),
                ", max_rows_per_request: "@,
                text::decimal_text(status.max_rows_per_request as nat),
                ", vault_concurrency: "@,
                text::decimal_text(status.vault_concurrency as nat),
            ],
        ),
{
    let opening = "QuotaStatus { bytes_used_month: "@;
    let first = text::decimal_text(status.bytes_used_month as nat);
    text::lemma_last_named(Seq::empty(), opening);
    assert(Seq::<char>::empty() + opening =~= opening);
    text::lemma_next_named(opening, first, seq![opening]);
    let told = opening + first;
    let parts = seq![opening].push(first);
    lemma_field_named(told, ", bytes_cap_month: "@, text::decimal_text(status.bytes_cap_month as nat), parts);
    let told_bytes_cap_month = told + ", bytes_cap_month: "@ + text::decimal_text(status.bytes_cap_month as nat);
    let parts_bytes_cap_month = parts.push(", bytes_cap_month: "@).push(text::decimal_text(status.bytes_cap_month as nat));
    lemma_field_named(told_bytes_cap_month, ", bytes_used_week: "@, text::decimal_text(status.bytes_used_week as nat), parts_bytes_cap_month);
    let told_bytes_used_week = told_bytes_cap_month + ", bytes_used_week: "@ + text::decimal_text(status.bytes_used_week as nat);
    let parts_bytes_used_week = parts_bytes_cap_month.push(", bytes_used_week: "@).push(text::decimal_text(status.bytes_used_week as nat));
    lemma_field_named(told_bytes_used_week, ", bytes_cap_week: "@, text::decimal_text(status.bytes_cap_week as nat), parts_bytes_used_week);
    let told_bytes_cap_week = told_bytes_used_week + ", bytes_cap_week: "@ + text::decimal_text(status.bytes_cap_week as nat);
    let parts_bytes_cap_week = parts_bytes_used_week.push(", bytes_cap_week: "@).push(text::decimal_text(status.bytes_cap_week as nat));
    lemma_field_named(told_bytes_cap_week, ", exports_this_hour: "@, text::decimal_text(status.exports_this_hour as nat), parts_bytes_cap_week);
    let told_exports_this_hour = told_bytes_cap_week + ", exports_this_hour: "@ + text::decimal_text(status.exports_this_hour as nat);
    let parts_exports_this_hour = parts_bytes_cap_week.push(", exports_this_hour: "@).push(text::decimal_text(status.exports_this_hour as nat));
    lemma_field_named(told_exports_this_hour, ", exports_cap_hour: "@, text::decimal_text(status.exports_cap_hour as nat), parts_exports_this_hour);
    let told_exports_cap_hour = told_exports_this_hour + ", exports_cap_hour: "@ + text::decimal_text(status.exports_cap_hour as nat);
    let parts_exports_cap_hour = parts_exports_this_hour.push(", exports_cap_hour: "@).push(text::decimal_text(status.exports_cap_hour as nat));
    lemma_field_named(told_exports_cap_hour, ", historical_data_months: "@, text::signed_decimal_text(status.historical_data_months as int), parts_exports_cap_hour);
    let told_historical_data_months = told_exports_cap_hour + ", historical_data_months: "@ + text::signed_decimal_text(status.historical_data_months as int);
    let parts_historical_data_months = parts_exports_cap_hour.push(", historical_data_months: "@).push(text::signed_decimal_text(status.historical_data_months as int));
    lemma_field_named(told_historical_data_months, ", calls_per_minute: "@, text::decimal_text(status.calls_per_minute as nat), parts_historical_data_months);
    let told_calls_per_minute = told_historical_data_months + ", calls_per_minute: "@ + text::decimal_text(status.calls_per_minute as nat);
    let parts_calls_per_minute = parts_historical_data_months.push(", calls_per_minute: "@).push(text::decimal_text(status.calls_per_minute as nat));
    lemma_field_named(told_calls_per_minute, ", max_rows_per_request: "@, text::decimal_text(status.max_rows_per_request as nat), parts_calls_per_minute);
    let told_max_rows_per_request = told_calls_per_minute + ", max_rows_per_request: "@ + text::decimal_text(status.max_rows_per_request as nat);
    let parts_max_rows_per_request = parts_calls_per_minute.push(", max_rows_per_request: "@).push(text::decimal_text(status.max_rows_per_request as nat));
    lemma_field_named(told_max_rows_per_request, ", vault_concurrency: "@, text::decimal_text(status.vault_concurrency as nat), parts_max_rows_per_request);
    let told_vault_concurrency = told_max_rows_per_request + ", vault_concurrency: "@ + text::decimal_text(status.vault_concurrency as nat);
    let parts_vault_concurrency = parts_max_rows_per_request.push(", vault_concurrency: "@).push(text::decimal_text(status.vault_concurrency as nat));
    text::lemma_more_behind(told_vault_concurrency, " }"@, parts_vault_concurrency);
    assert(parts_vault_concurrency =~= seq![
        "QuotaStatus { bytes_used_month: "@,
        text::decimal_text(status.bytes_used_month as nat),
        ", bytes_cap_month: "@,
        text::decimal_text(status.bytes_cap_month as nat),
        ", bytes_used_week: "@,
        text::decimal_text(status.bytes_used_week as nat),
        ", bytes_cap_week: "@,
        text::decimal_text(status.bytes_cap_week as nat),
        ", exports_this_hour: "@,
        text::decimal_text(status.exports_this_hour as nat),
        ", exports_cap_hour: "@,
        text::decimal_text(status.exports_cap_hour as nat),
        ", historical_data_months: "@,
        text::signed_decimal_text(status.historical_data_months as int),
        ", calls_per_minute: "@,
        text::decimal_text(status.calls_per_minute as nat),
        ", max_rows_per_request: "@,
        text::decimal_text(status.max_rows_per_request as nat),
        ", vault_concurrency: "@,
        text::decimal_text(status.vault_concurrency as nat),
    ]);
}

proof fn lemma_field_named(told: Seq<char>, label: Seq<char>, number: Seq<char>, parts: Seq<Seq<char>>)
    requires
        text::names_in_order(told, parts),
    ensures
        text::names_in_order(told + label + number, parts.push(label).push(number)),
{
    text::lemma_next_named(told, label, parts);
    text::lemma_next_named(told + label, number, parts.push(label));
}

} // verus!

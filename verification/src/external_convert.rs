//! Turning an ordinary document into one made of elements by the public
//! transcription service.
//!
//! The service is a sequence of requests in which each needs what the reply to
//! an earlier one gave. `Conversion` keeps where the sequence stands, and
//! `advance` says from a reply what to ask next.
use reqwest::Url;
use vstd::prelude::*;
use crate::base64_text::{base64_bytes, base64_text, encode_base64};
use crate::element_catalog::{ids_are_distinct, rows, Row};
use crate::element_convert::{
    check_source, docx_objection, is_archive, source_objection, MAX_INPUT_BYTES,
};
use crate::json::{settle, settled, Json, JsonModel};
use crate::numbers::{parse_unsigned, unsigned_of};
use crate::text::{
    begins_with, blank, cat2, cat3, chars_of, contains, copy_range, decimal, decimal_text, find,
    find_chars, is_blank, lemma_find_from, occurs_at, replace_all, replace_text, same_text,
    split_on, split_text, splitting_goes_side_by_side, string_of, texts,
    texts_without_the_pattern_stay, the_first_place_is_replaced, trim, trim_text,
};

verus! {

/// Where the way into the service is asked for.
pub const AUTH_ENTRY_URL: &'static str = "https://www.gdzqfy.gov.cn/api/utils/getscwsurl";

/// What the addresses of the service begin with.
pub const SERVICE_BASE: &'static str = "https://wxfxpg.susong51.com/znszj-touch";

/// A conversion may take this many seconds.
pub const CONVERT_TIMEOUT_SECS: u64 = 60;

/// A converted document.
pub struct ExternalElementResult {
    pub filename: String,
    pub data_base64: String,
    pub preview_text: String,
}

/// The form of the service for a kind of document.
pub open spec fn mbid_of(id: Seq<char>) -> Option<Seq<char>> {
    if id == "complaint_private_lending"@ {
        Some("mjjdqsz"@)
    } else if id == "complaint_divorce"@ {
        Some("lhjfqsz"@)
    } else if id == "complaint_sales"@ {
        Some("mmhtqsz"@)
    } else if id == "complaint_property_service"@ {
        Some("wyfwqsz"@)
    } else if id == "complaint_labor"@ {
        Some("ldzyqsz"@)
    } else if id == "complaint_traffic"@ {
        Some("jdcjtsgqsz"@)
    } else if id == "complaint_financial_loan"@ {
        Some("jrjkqsz"@)
    } else if id == "complaint_credit_card"@ {
        Some("yhxykqsz"@)
    } else if id == "complaint_finance_lease"@ {
        Some("rzzlhtqsz"@)
    } else if id == "complaint_guarantee_insurance"@ {
        Some("bzbxhtqsz"@)
    } else if id == "complaint_securities_misstatement"@ {
        Some("zqxjcszrqsz"@)
    } else if id == "complaint_house_sale"@ {
        Some("fwmmhtjfmsqsz"@)
    } else if id == "complaint_house_lease"@ {
        Some("fwzlhtjfmsqsz"@)
    } else if id == "complaint_property_loss_insurance"@ {
        Some("ccssbxhtjfmsqsz"@)
    } else if id == "complaint_construction"@ {
        Some("jsgcsghtjfmsqsz"@)
    } else if id == "complaint_liability_insurance"@ {
        Some("zrbxhtjfmsqsz"@)
    } else if id == "complaint_personal_insurance"@ {
        Some("rsbxhtjfmsqsz"@)
    } else if id == "complaint_technology"@ {
        Some("jshtjfmsqsz"@)
    } else if id == "application_enforcement"@ {
        Some("qzzxsqs"@)
    } else if id == "application_lift_travel_restriction"@ {
        Some("zsjcczfjgtxzcssqs"@)
    } else if id == "application_distribution"@ {
        Some("cyfpsqs"@)
    } else if id == "application_enforcement_guarantee"@ {
        Some("zxdbsqs"@)
    } else if id == "application_enforcement_objection"@ {
        Some("zxyysqs"@)
    } else if id == "application_enforcement_reconsideration"@ {
        Some("zxfysqs"@)
    } else if id == "application_enforcement_supervision"@ {
        Some("zxjdsqs"@)
    } else if id == "application_preemptive_right"@ {
        Some("qryxgmqsqs"@)
    } else if id == "application_non_enforcement"@ {
        Some("byzxzccjdjshgzzqwssqs"@)
    } else if id == "defense_private_lending"@ {
        Some("mjjddbz"@)
    } else if id == "defense_divorce"@ {
        Some("lhjfdbz"@)
    } else if id == "defense_sales"@ {
        Some("mmhtdbz"@)
    } else if id == "defense_property_service"@ {
        Some("wyfwdbz"@)
    } else if id == "defense_labor"@ {
        Some("ldzydbz"@)
    } else if id == "defense_traffic"@ {
        Some("jdcjtsgdbz"@)
    } else if id == "defense_financial_loan"@ {
        Some("jrjkdbz"@)
    } else if id == "defense_credit_card"@ {
        Some("yhxykdbz"@)
    } else if id == "defense_finance_lease"@ {
        Some("rzzlhtdbz"@)
    } else if id == "defense_guarantee_insurance"@ {
        Some("bzbxhtdbz"@)
    } else if id == "defense_securities_misstatement"@ {
        Some("zqxjcszrdbz"@)
    } else if id == "defense_house_sale"@ {
        Some("fwmmhtjfmsdbz"@)
    } else if id == "defense_house_lease"@ {
        Some("fwzlhtjfmsdbz"@)
    } else if id == "defense_property_loss_insurance"@ {
        Some("ccssbxhtjfmsdbz"@)
    } else if id == "defense_construction"@ {
        Some("jsgcsghtjfmsdbz"@)
    } else if id == "defense_liability_insurance"@ {
        Some("zrbxhtjfmsdbz"@)
    } else if id == "defense_personal_insurance"@ {
        Some("rsbxhtjfmsdbz"@)
    } else if id == "defense_technology"@ {
        Some("jshtjfmsdbz"@)
    } else if id == "defense_administrative"@ {
        Some("xzdbz"@)
    } else if id == "statement_trademark_revocation"@ {
        Some("sbcxfsxzjfdsryjcss"@)
    } else if id == "statement_trademark_invalidity"@ {
        Some("sbwxxzjfdsryjcss"@)
    } else if id == "statement_patent_invalidity"@ {
        Some("zlwxxzjfdsryjcss"@)
    } else if id == "mediation_application_private_lending"@ {
        Some("mjjdjftjsqs"@)
    } else if id == "mediation_application_divorce"@ {
        Some("lhjftjsqs"@)
    } else if id == "mediation_application_labor"@ {
        Some("ldjftjsqs"@)
    } else if id == "mediation_application_traffic"@ {
        Some("jdcjtsgzrjftjsqs"@)
    } else if id == "mediation_defense_private_lending"@ {
        Some("mjjdjftjdbyjs"@)
    } else if id == "mediation_defense_divorce"@ {
        Some("lhjftjdbyjs"@)
    } else if id == "mediation_defense_labor"@ {
        Some("ldjftjdbyjs"@)
    } else if id == "mediation_defense_traffic"@ {
        Some("jdcjtsgzrjftjdbyjs"@)
    } else if id == "other_evidence_list"@ {
        Some("zjqd"@)
    } else if id == "other_arbitration_application"@ {
        Some("zcsqs"@)
    } else if id == "other_power_of_attorney_personal"@ {
        Some("sqwtsgr"@)
    } else if id == "other_administrative_reconsideration_personal"@ {
        Some("xzfysqsgr"@)
    } else if id == "other_administrative_reconsideration_entity"@ {
        Some("xzfysqsdw"@)
    } else {
        None
    }
}

/// The form of the service for a kind of document.
pub fn fachuan_mbid_for_template(template_id: &str) -> (r: Option<&'static str>)
    ensures
        match r {
            Some(m) => mbid_of(template_id@) == Some(m@),
            None => mbid_of(template_id@) is None,
        },
{
    if same_text(template_id, "complaint_private_lending") {
        Some("mjjdqsz")
    } else if same_text(template_id, "complaint_divorce") {
        Some("lhjfqsz")
    } else if same_text(template_id, "complaint_sales") {
        Some("mmhtqsz")
    } else if same_text(template_id, "complaint_property_service") {
        Some("wyfwqsz")
    } else if same_text(template_id, "complaint_labor") {
        Some("ldzyqsz")
    } else if same_text(template_id, "complaint_traffic") {
        Some("jdcjtsgqsz")
    } else if same_text(template_id, "complaint_financial_loan") {
        Some("jrjkqsz")
    } else if same_text(template_id, "complaint_credit_card") {
        Some("yhxykqsz")
    } else if same_text(template_id, "complaint_finance_lease") {
        Some("rzzlhtqsz")
    } else if same_text(template_id, "complaint_guarantee_insurance") {
        Some("bzbxhtqsz")
    } else if same_text(template_id, "complaint_securities_misstatement") {
        Some("zqxjcszrqsz")
    } else if same_text(template_id, "complaint_house_sale") {
        Some("fwmmhtjfmsqsz")
    } else if same_text(template_id, "complaint_house_lease") {
        Some("fwzlhtjfmsqsz")
    } else if same_text(template_id, "complaint_property_loss_insurance") {
        Some("ccssbxhtjfmsqsz")
    } else if same_text(template_id, "complaint_construction") {
        Some("jsgcsghtjfmsqsz")
    } else if same_text(template_id, "complaint_liability_insurance") {
        Some("zrbxhtjfmsqsz")
    } else if same_text(template_id, "complaint_personal_insurance") {
        Some("rsbxhtjfmsqsz")
    } else if same_text(template_id, "complaint_technology") {
        Some("jshtjfmsqsz")
    } else if same_text(template_id, "application_enforcement") {
        Some("qzzxsqs")
    } else if same_text(template_id, "application_lift_travel_restriction") {
        Some("zsjcczfjgtxzcssqs")
    } else if same_text(template_id, "application_distribution") {
        Some("cyfpsqs")
    } else if same_text(template_id, "application_enforcement_guarantee") {
        Some("zxdbsqs")
    } else if same_text(template_id, "application_enforcement_objection") {
        Some("zxyysqs")
    } else if same_text(template_id, "application_enforcement_reconsideration") {
        Some("zxfysqs")
    } else if same_text(template_id, "application_enforcement_supervision") {
        Some("zxjdsqs")
    } else if same_text(template_id, "application_preemptive_right") {
        Some("qryxgmqsqs")
    } else if same_text(template_id, "application_non_enforcement") {
        Some("byzxzccjdjshgzzqwssqs")
    } else if same_text(template_id, "defense_private_lending") {
        Some("mjjddbz")
    } else if same_text(template_id, "defense_divorce") {
        Some("lhjfdbz")
    } else if same_text(template_id, "defense_sales") {
        Some("mmhtdbz")
    } else if same_text(template_id, "defense_property_service") {
        Some("wyfwdbz")
    } else if same_text(template_id, "defense_labor") {
        Some("ldzydbz")
    } else if same_text(template_id, "defense_traffic") {
        Some("jdcjtsgdbz")
    } else if same_text(template_id, "defense_financial_loan") {
        Some("jrjkdbz")
    } else if same_text(template_id, "defense_credit_card") {
        Some("yhxykdbz")
    } else if same_text(template_id, "defense_finance_lease") {
        Some("rzzlhtdbz")
    } else if same_text(template_id, "defense_guarantee_insurance") {
        Some("bzbxhtdbz")
    } else if same_text(template_id, "defense_securities_misstatement") {
        Some("zqxjcszrdbz")
    } else if same_text(template_id, "defense_house_sale") {
        Some("fwmmhtjfmsdbz")
    } else if same_text(template_id, "defense_house_lease") {
        Some("fwzlhtjfmsdbz")
    } else if same_text(template_id, "defense_property_loss_insurance") {
        Some("ccssbxhtjfmsdbz")
    } else if same_text(template_id, "defense_construction") {
        Some("jsgcsghtjfmsdbz")
    } else if same_text(template_id, "defense_liability_insurance") {
        Some("zrbxhtjfmsdbz")
    } else if same_text(template_id, "defense_personal_insurance") {
        Some("rsbxhtjfmsdbz")
    } else if same_text(template_id, "defense_technology") {
        Some("jshtjfmsdbz")
    } else if same_text(template_id, "defense_administrative") {
        Some("xzdbz")
    } else if same_text(template_id, "statement_trademark_revocation") {
        Some("sbcxfsxzjfdsryjcss")
    } else if same_text(template_id, "statement_trademark_invalidity") {
        Some("sbwxxzjfdsryjcss")
    } else if same_text(template_id, "statement_patent_invalidity") {
        Some("zlwxxzjfdsryjcss")
    } else if same_text(template_id, "mediation_application_private_lending") {
        Some("mjjdjftjsqs")
    } else if same_text(template_id, "mediation_application_divorce") {
        Some("lhjftjsqs")
    } else if same_text(template_id, "mediation_application_labor") {
        Some("ldjftjsqs")
    } else if same_text(template_id, "mediation_application_traffic") {
        Some("jdcjtsgzrjftjsqs")
    } else if same_text(template_id, "mediation_defense_private_lending") {
        Some("mjjdjftjdbyjs")
    } else if same_text(template_id, "mediation_defense_divorce") {
        Some("lhjftjdbyjs")
    } else if same_text(template_id, "mediation_defense_labor") {
        Some("ldjftjdbyjs")
    } else if same_text(template_id, "mediation_defense_traffic") {
        Some("jdcjtsgzrjftjdbyjs")
    } else if same_text(template_id, "other_evidence_list") {
        Some("zjqd")
    } else if same_text(template_id, "other_arbitration_application") {
        Some("zcsqs")
    } else if same_text(template_id, "other_power_of_attorney_personal") {
        Some("sqwtsgr")
    } else if same_text(template_id, "other_administrative_reconsideration_personal") {
        Some("xzfysqsgr")
    } else if same_text(template_id, "other_administrative_reconsideration_entity") {
        Some("xzfysqsdw")
    } else {
        None
    }
}

/// The id of each kind of document of the catalogue, by its number.
#[verifier::opaque]
spec fn kind(i: int) -> Seq<char> {
    if i == 0 {
        "complaint_private_lending"@
    } else if i == 1 {
        "complaint_divorce"@
    } else if i == 2 {
        "complaint_sales"@
    } else if i == 3 {
        "complaint_property_service"@
    } else if i == 4 {
        "complaint_labor"@
    } else if i == 5 {
        "complaint_traffic"@
    } else if i == 6 {
        "complaint_financial_loan"@
    } else if i == 7 {
        "complaint_credit_card"@
    } else if i == 8 {
        "complaint_finance_lease"@
    } else if i == 9 {
        "complaint_guarantee_insurance"@
    } else if i == 10 {
        "complaint_securities_misstatement"@
    } else if i == 11 {
        "complaint_house_sale"@
    } else if i == 12 {
        "complaint_house_lease"@
    } else if i == 13 {
        "complaint_property_loss_insurance"@
    } else if i == 14 {
        "complaint_construction"@
    } else if i == 15 {
        "complaint_liability_insurance"@
    } else if i == 16 {
        "complaint_personal_insurance"@
    } else if i == 17 {
        "complaint_technology"@
    } else if i == 18 {
        "application_enforcement"@
    } else if i == 19 {
        "application_lift_travel_restriction"@
    } else if i == 20 {
        "application_distribution"@
    } else if i == 21 {
        "application_enforcement_guarantee"@
    } else if i == 22 {
        "application_enforcement_objection"@
    } else if i == 23 {
        "application_enforcement_reconsideration"@
    } else if i == 24 {
        "application_enforcement_supervision"@
    } else if i == 25 {
        "application_preemptive_right"@
    } else if i == 26 {
        "application_non_enforcement"@
    } else if i == 27 {
        "defense_private_lending"@
    } else if i == 28 {
        "defense_divorce"@
    } else if i == 29 {
        "defense_sales"@
    } else if i == 30 {
        "defense_property_service"@
    } else if i == 31 {
        "defense_labor"@
    } else if i == 32 {
        "defense_traffic"@
    } else if i == 33 {
        "defense_financial_loan"@
    } else if i == 34 {
        "defense_credit_card"@
    } else if i == 35 {
        "defense_finance_lease"@
    } else if i == 36 {
        "defense_guarantee_insurance"@
    } else if i == 37 {
        "defense_securities_misstatement"@
    } else if i == 38 {
        "defense_house_sale"@
    } else if i == 39 {
        "defense_house_lease"@
    } else if i == 40 {
        "defense_property_loss_insurance"@
    } else if i == 41 {
        "defense_construction"@
    } else if i == 42 {
        "defense_liability_insurance"@
    } else if i == 43 {
        "defense_personal_insurance"@
    } else if i == 44 {
        "defense_technology"@
    } else if i == 45 {
        "defense_administrative"@
    } else if i == 46 {
        "statement_trademark_revocation"@
    } else if i == 47 {
        "statement_trademark_invalidity"@
    } else if i == 48 {
        "statement_patent_invalidity"@
    } else if i == 49 {
        "mediation_application_private_lending"@
    } else if i == 50 {
        "mediation_application_divorce"@
    } else if i == 51 {
        "mediation_application_labor"@
    } else if i == 52 {
        "mediation_application_traffic"@
    } else if i == 53 {
        "mediation_defense_private_lending"@
    } else if i == 54 {
        "mediation_defense_divorce"@
    } else if i == 55 {
        "mediation_defense_labor"@
    } else if i == 56 {
        "mediation_defense_traffic"@
    } else if i == 57 {
        "other_evidence_list"@
    } else if i == 58 {
        "other_arbitration_application"@
    } else if i == 59 {
        "other_power_of_attorney_personal"@
    } else if i == 60 {
        "other_administrative_reconsideration_personal"@
    } else if i == 61 {
        "other_administrative_reconsideration_entity"@
    } else {
        Seq::empty()
    }
}

spec fn numbered(rows: Seq<Row>) -> bool {
    forall|i: int| 0 <= i < rows.len() ==> (#[trigger] rows[i]).0 == kind(i)
}

proof fn one_more_numbered(rows: Seq<Row>, row: Row) -> (after: Seq<Row>)
    requires
        numbered(rows),
        row.0 == kind(rows.len() as int),
    ensures
        numbered(after),
        after == rows.push(row),
{
    assert forall|i: int| 0 <= i < rows.push(row).len() implies (
    #[trigger] rows.push(row)[i]).0 == kind(i) by {
        if i < rows.len() {
            assert(rows.push(row)[i] == rows[i]);
        }
    }
    rows.push(row)
}

proof fn lemma_kinds()
    ensures
        rows().len() == 62,
        numbered(rows()),
{
    reveal(kind);
    let g: Seq<Row> = Seq::empty();
    let g = one_more_numbered(g, ("complaint_private_lending"@, "民间借贷起诉状"@, "起诉状"@, true));
    let g = one_more_numbered(g, ("complaint_divorce"@, "离婚纠纷起诉状"@, "起诉状"@, true));
    let g = one_more_numbered(g, ("complaint_sales"@, "买卖合同起诉状"@, "起诉状"@, true));
    let g = one_more_numbered(g, ("complaint_property_service"@, "物业服务起诉状"@, "起诉状"@, true));
    let g = one_more_numbered(g, ("complaint_labor"@, "劳动争议起诉状"@, "起诉状"@, true));
    let g = one_more_numbered(g, ("complaint_traffic"@, "机动车交通事故起诉状"@, "起诉状"@, true));
    let g = one_more_numbered(g, ("complaint_financial_loan"@, "金融借款起诉状"@, "起诉状"@, false));
    let g = one_more_numbered(g, ("complaint_credit_card"@, "银行信用卡起诉状"@, "起诉状"@, false));
    let g = one_more_numbered(g, ("complaint_finance_lease"@, "融资租赁合同起诉状"@, "起诉状"@, false));
    let g = one_more_numbered(g, ("complaint_guarantee_insurance"@, "保证保险合同起诉状"@, "起诉状"@, false));
    let g = one_more_numbered(g, ("complaint_securities_misstatement"@, "证券虚假陈述责任起诉状"@, "起诉状"@, false));
    let g = one_more_numbered(g, ("complaint_house_sale"@, "房屋买卖合同起诉状"@, "起诉状"@, false));
    let g = one_more_numbered(g, ("complaint_house_lease"@, "房屋租赁合同起诉状"@, "起诉状"@, false));
    let g = one_more_numbered(g, ("complaint_property_loss_insurance"@, "财产损失保险合同起诉状"@, "起诉状"@, false));
    let g = one_more_numbered(g, ("complaint_construction"@, "建设工程施工合同起诉状"@, "起诉状"@, false));
    let g = one_more_numbered(g, ("complaint_liability_insurance"@, "责任保险合同起诉状"@, "起诉状"@, false));
    let g = one_more_numbered(g, ("complaint_personal_insurance"@, "人身保险合同起诉状"@, "起诉状"@, false));
    let g = one_more_numbered(g, ("complaint_technology"@, "技术合同纠纷起诉状"@, "起诉状"@, false));
    let g = one_more_numbered(g, ("application_enforcement"@, "强制执行申请书"@, "申请书"@, false));
    let g = one_more_numbered(g, ("application_lift_travel_restriction"@, "暂时解除乘坐飞机、高铁限制措施申请书"@, "申请书"@, false));
    let g = one_more_numbered(g, ("application_distribution"@, "参与分配申请书"@, "申请书"@, false));
    let g = one_more_numbered(g, ("application_enforcement_guarantee"@, "执行担保申请书"@, "申请书"@, false));
    let g = one_more_numbered(g, ("application_enforcement_objection"@, "执行异议申请书"@, "申请书"@, false));
    let g = one_more_numbered(g, ("application_enforcement_reconsideration"@, "执行复议申请书"@, "申请书"@, false));
    let g = one_more_numbered(g, ("application_enforcement_supervision"@, "执行监督申请书"@, "申请书"@, false));
    let g = one_more_numbered(g, ("application_preemptive_right"@, "确认优先购买权申请书"@, "申请书"@, false));
    let g = one_more_numbered(g, ("application_non_enforcement"@, "不予执行申请书"@, "申请书"@, false));
    let g = one_more_numbered(g, ("defense_private_lending"@, "民间借贷答辩状"@, "答辩状"@, true));
    let g = one_more_numbered(g, ("defense_divorce"@, "离婚纠纷答辩状"@, "答辩状"@, true));
    let g = one_more_numbered(g, ("defense_sales"@, "买卖合同答辩状"@, "答辩状"@, true));
    let g = one_more_numbered(g, ("defense_property_service"@, "物业服务答辩状"@, "答辩状"@, true));
    let g = one_more_numbered(g, ("defense_labor"@, "劳动争议答辩状"@, "答辩状"@, true));
    let g = one_more_numbered(g, ("defense_traffic"@, "机动车交通事故答辩状"@, "答辩状"@, true));
    let g = one_more_numbered(g, ("defense_financial_loan"@, "金融借款答辩状"@, "答辩状"@, false));
    let g = one_more_numbered(g, ("defense_credit_card"@, "银行信用卡答辩状"@, "答辩状"@, false));
    let g = one_more_numbered(g, ("defense_finance_lease"@, "融资租赁合同答辩状"@, "答辩状"@, false));
    let g = one_more_numbered(g, ("defense_guarantee_insurance"@, "保证保险合同答辩状"@, "答辩状"@, false));
    let g = one_more_numbered(g, ("defense_securities_misstatement"@, "证券虚假陈述责任答辩状"@, "答辩状"@, false));
    let g = one_more_numbered(g, ("defense_house_sale"@, "房屋买卖合同纠纷答辩状"@, "答辩状"@, false));
    let g = one_more_numbered(g, ("defense_house_lease"@, "房屋租赁合同纠纷答辩状"@, "答辩状"@, false));
    let g = one_more_numbered(g, ("defense_property_loss_insurance"@, "财产损失保险合同纠纷民事答辩状"@, "答辩状"@, false));
    let g = one_more_numbered(g, ("defense_construction"@, "建设工程施工合同纠纷答辩状"@, "答辩状"@, false));
    let g = one_more_numbered(g, ("defense_liability_insurance"@, "责任保险合同纠纷民事答辩状"@, "答辩状"@, false));
    let g = one_more_numbered(g, ("defense_personal_insurance"@, "人身保险合同纠纷民事答辩状"@, "答辩状"@, false));
    let g = one_more_numbered(g, ("defense_technology"@, "技术合同纠纷答辩状"@, "答辩状"@, false));
    let g = one_more_numbered(g, ("defense_administrative"@, "行政答辩状"@, "答辩状"@, false));
    let g = one_more_numbered(g, ("statement_trademark_revocation"@, "商标撤销复审行政纠纷第三人意见陈述书"@, "陈述书"@, false));
    let g = one_more_numbered(g, ("statement_trademark_invalidity"@, "商标无效行政纠纷第三人意见陈述书"@, "陈述书"@, false));
    let g = one_more_numbered(g, ("statement_patent_invalidity"@, "专利无效行政纠纷第三人意见陈述书"@, "陈述书"@, false));
    let g = one_more_numbered(g, ("mediation_application_private_lending"@, "民间借贷纠纷调解申请书"@, "调解申请书"@, false));
    let g = one_more_numbered(g, ("mediation_application_divorce"@, "离婚纠纷调解申请书"@, "调解申请书"@, false));
    let g = one_more_numbered(g, ("mediation_application_labor"@, "劳动纠纷调解申请书"@, "调解申请书"@, false));
    let g = one_more_numbered(g, ("mediation_application_traffic"@, "机动车交通事故责任纠纷调解申请书"@, "调解申请书"@, false));
    let g = one_more_numbered(g, ("mediation_defense_private_lending"@, "民间借贷纠纷调解答辩意见书"@, "调解答辩意见书"@, false));
    let g = one_more_numbered(g, ("mediation_defense_divorce"@, "离婚纠纷调解答辩意见书"@, "调解答辩意见书"@, false));
    let g = one_more_numbered(g, ("mediation_defense_labor"@, "劳动纠纷调解答辩意见书"@, "调解答辩意见书"@, false));
    let g = one_more_numbered(g, ("mediation_defense_traffic"@, "机动车交通事故责任纠纷调解答辩意见书"@, "调解答辩意见书"@, false));
    let g = one_more_numbered(g, ("other_evidence_list"@, "证据清单"@, "其他"@, false));
    let g = one_more_numbered(g, ("other_arbitration_application"@, "仲裁申请书"@, "其他"@, false));
    let g = one_more_numbered(g, ("other_power_of_attorney_personal"@, "授权委托书（个人）"@, "其他"@, false));
    let g = one_more_numbered(g, ("other_administrative_reconsideration_personal"@, "行政复议申请书（个人）"@, "其他"@, false));
    let g = one_more_numbered(g, ("other_administrative_reconsideration_entity"@, "行政复议申请书（单位）"@, "其他"@, false));
    assert(g.len() == 62);
    assert(g == rows()) by {
        reveal(rows);
    }
}

proof fn lemma_kind_has_form(i: int)
    requires
        0 <= i < 62,
    ensures
        mbid_of(kind(i)) is Some,
{
    reveal(kind);
    assert(mbid_of("complaint_private_lending"@) is Some);
    assert(mbid_of("complaint_divorce"@) is Some);
    assert(mbid_of("complaint_sales"@) is Some);
    assert(mbid_of("complaint_property_service"@) is Some);
    assert(mbid_of("complaint_labor"@) is Some);
    assert(mbid_of("complaint_traffic"@) is Some);
    assert(mbid_of("complaint_financial_loan"@) is Some);
    assert(mbid_of("complaint_credit_card"@) is Some);
    assert(mbid_of("complaint_finance_lease"@) is Some);
    assert(mbid_of("complaint_guarantee_insurance"@) is Some);
    assert(mbid_of("complaint_securities_misstatement"@) is Some);
    assert(mbid_of("complaint_house_sale"@) is Some);
    assert(mbid_of("complaint_house_lease"@) is Some);
    assert(mbid_of("complaint_property_loss_insurance"@) is Some);
    assert(mbid_of("complaint_construction"@) is Some);
    assert(mbid_of("complaint_liability_insurance"@) is Some);
    assert(mbid_of("complaint_personal_insurance"@) is Some);
    assert(mbid_of("complaint_technology"@) is Some);
    assert(mbid_of("application_enforcement"@) is Some);
    assert(mbid_of("application_lift_travel_restriction"@) is Some);
    assert(mbid_of("application_distribution"@) is Some);
    assert(mbid_of("application_enforcement_guarantee"@) is Some);
    assert(mbid_of("application_enforcement_objection"@) is Some);
    assert(mbid_of("application_enforcement_reconsideration"@) is Some);
    assert(mbid_of("application_enforcement_supervision"@) is Some);
    assert(mbid_of("application_preemptive_right"@) is Some);
    assert(mbid_of("application_non_enforcement"@) is Some);
    assert(mbid_of("defense_private_lending"@) is Some);
    assert(mbid_of("defense_divorce"@) is Some);
    assert(mbid_of("defense_sales"@) is Some);
    assert(mbid_of("defense_property_service"@) is Some);
    assert(mbid_of("defense_labor"@) is Some);
    assert(mbid_of("defense_traffic"@) is Some);
    assert(mbid_of("defense_financial_loan"@) is Some);
    assert(mbid_of("defense_credit_card"@) is Some);
    assert(mbid_of("defense_finance_lease"@) is Some);
    assert(mbid_of("defense_guarantee_insurance"@) is Some);
    assert(mbid_of("defense_securities_misstatement"@) is Some);
    assert(mbid_of("defense_house_sale"@) is Some);
    assert(mbid_of("defense_house_lease"@) is Some);
    assert(mbid_of("defense_property_loss_insurance"@) is Some);
    assert(mbid_of("defense_construction"@) is Some);
    assert(mbid_of("defense_liability_insurance"@) is Some);
    assert(mbid_of("defense_personal_insurance"@) is Some);
    assert(mbid_of("defense_technology"@) is Some);
    assert(mbid_of("defense_administrative"@) is Some);
    assert(mbid_of("statement_trademark_revocation"@) is Some);
    assert(mbid_of("statement_trademark_invalidity"@) is Some);
    assert(mbid_of("statement_patent_invalidity"@) is Some);
    assert(mbid_of("mediation_application_private_lending"@) is Some);
    assert(mbid_of("mediation_application_divorce"@) is Some);
    assert(mbid_of("mediation_application_labor"@) is Some);
    assert(mbid_of("mediation_application_traffic"@) is Some);
    assert(mbid_of("mediation_defense_private_lending"@) is Some);
    assert(mbid_of("mediation_defense_divorce"@) is Some);
    assert(mbid_of("mediation_defense_labor"@) is Some);
    assert(mbid_of("mediation_defense_traffic"@) is Some);
    assert(mbid_of("other_evidence_list"@) is Some);
    assert(mbid_of("other_arbitration_application"@) is Some);
    assert(mbid_of("other_power_of_attorney_personal"@) is Some);
    assert(mbid_of("other_administrative_reconsideration_personal"@) is Some);
    assert(mbid_of("other_administrative_reconsideration_entity"@) is Some);
}

/// Three characters of a form by which the forms can be told apart: the second,
/// the third and the last but one.
#[verifier::opaque]
spec fn form_mark(form: Seq<char>) -> int {
    (form[1] as u32 * 128 + form[2] as u32) * 128 + form[form.len() - 2] as u32
}

/// The number of the kind of document whose form has a mark.
#[verifier::opaque]
spec fn kind_with_mark(mark: int) -> int {
    if mark == 1750387 {
        0
    } else if mark == 1717619 {
        1
    } else if mark == 1799283 {
        2
    } else if mark == 1995635 {
        3
    } else if mark == 1654131 {
        4
    } else if mark == 1651187 {
        5
    } else if mark == 1881459 {
        6
    } else if mark == 1719411 {
        7
    } else if mark == 2014579 {
        8
    } else if mark == 2011507 {
        9
    } else if mark == 1866867 {
        10
    } else if mark == 1963763 {
        11
    } else if mark == 1965427 {
        12
    } else if mark == 1636851 {
        13
    } else if mark == 1897459 {
        14
    } else if mark == 1880435 {
        15
    } else if mark == 1896819 {
        16
    } else if mark == 1897587 {
        17
    } else if mark == 2014577 {
        18
    } else if mark == 1897841 {
        19
    } else if mark == 1995633 {
        20
    } else if mark == 1978993 {
        21
    } else if mark == 1981681 {
        22
    } else if mark == 1979249 {
        23
    } else if mark == 1979761 {
        24
    } else if mark == 1883377 {
        25
    } else if mark == 1998193 {
        26
    } else if mark == 1750370 {
        27
    } else if mark == 1717602 {
        28
    } else if mark == 1799266 {
        29
    } else if mark == 1995618 {
        30
    } else if mark == 1654114 {
        31
    } else if mark == 1651170 {
        32
    } else if mark == 1881442 {
        33
    } else if mark == 1719394 {
        34
    } else if mark == 2014562 {
        35
    } else if mark == 2011490 {
        36
    } else if mark == 1866850 {
        37
    } else if mark == 1963746 {
        38
    } else if mark == 1965410 {
        39
    } else if mark == 1636834 {
        40
    } else if mark == 1897442 {
        41
    } else if mark == 1880418 {
        42
    } else if mark == 1896802 {
        43
    } else if mark == 1897570 {
        44
    } else if mark == 2011746 {
        45
    } else if mark == 1618419 {
        46
    } else if mark == 1620979 {
        47
    } else if mark == 1784819 {
        48
    } else if mark == 1750385 {
        49
    } else if mark == 1717617 {
        50
    } else if mark == 1652081 {
        51
    } else if mark == 1651185 {
        52
    } else if mark == 1750378 {
        53
    } else if mark == 1717610 {
        54
    } else if mark == 1652074 {
        55
    } else if mark == 1651178 {
        56
    } else if mark == 1751281 {
        57
    } else if mark == 1636849 {
        58
    } else if mark == 1866727 {
        59
    } else if mark == 2012007 {
        60
    } else if mark == 2012004 {
        61
    } else {
        62
    }
}

proof fn form_marks_from_0()
    ensures
        kind_with_mark(form_mark("mjjdqsz"@)) == 0,
        kind_with_mark(form_mark("lhjfqsz"@)) == 1,
        kind_with_mark(form_mark("mmhtqsz"@)) == 2,
        kind_with_mark(form_mark("wyfwqsz"@)) == 3,
        kind_with_mark(form_mark("ldzyqsz"@)) == 4,
        kind_with_mark(form_mark("jdcjtsgqsz"@)) == 5,
        kind_with_mark(form_mark("jrjkqsz"@)) == 6,
        kind_with_mark(form_mark("yhxykqsz"@)) == 7,
{
    reveal(form_mark);
    reveal(kind_with_mark);
    reveal_strlit("mjjdqsz");
    reveal_strlit("lhjfqsz");
    reveal_strlit("mmhtqsz");
    reveal_strlit("wyfwqsz");
    reveal_strlit("ldzyqsz");
    reveal_strlit("jdcjtsgqsz");
    reveal_strlit("jrjkqsz");
    reveal_strlit("yhxykqsz");
}

proof fn form_marks_from_8()
    ensures
        kind_with_mark(form_mark("rzzlhtqsz"@)) == 8,
        kind_with_mark(form_mark("bzbxhtqsz"@)) == 9,
        kind_with_mark(form_mark("zqxjcszrqsz"@)) == 10,
        kind_with_mark(form_mark("fwmmhtjfmsqsz"@)) == 11,
        kind_with_mark(form_mark("fwzlhtjfmsqsz"@)) == 12,
        kind_with_mark(form_mark("ccssbxhtjfmsqsz"@)) == 13,
        kind_with_mark(form_mark("jsgcsghtjfmsqsz"@)) == 14,
        kind_with_mark(form_mark("zrbxhtjfmsqsz"@)) == 15,
{
    reveal(form_mark);
    reveal(kind_with_mark);
    reveal_strlit("rzzlhtqsz");
    reveal_strlit("bzbxhtqsz");
    reveal_strlit("zqxjcszrqsz");
    reveal_strlit("fwmmhtjfmsqsz");
    reveal_strlit("fwzlhtjfmsqsz");
    reveal_strlit("ccssbxhtjfmsqsz");
    reveal_strlit("jsgcsghtjfmsqsz");
    reveal_strlit("zrbxhtjfmsqsz");
}

proof fn form_marks_from_16()
    ensures
        kind_with_mark(form_mark("rsbxhtjfmsqsz"@)) == 16,
        kind_with_mark(form_mark("jshtjfmsqsz"@)) == 17,
        kind_with_mark(form_mark("qzzxsqs"@)) == 18,
        kind_with_mark(form_mark("zsjcczfjgtxzcssqs"@)) == 19,
        kind_with_mark(form_mark("cyfpsqs"@)) == 20,
        kind_with_mark(form_mark("zxdbsqs"@)) == 21,
        kind_with_mark(form_mark("zxyysqs"@)) == 22,
        kind_with_mark(form_mark("zxfysqs"@)) == 23,
{
    reveal(form_mark);
    reveal(kind_with_mark);
    reveal_strlit("rsbxhtjfmsqsz");
    reveal_strlit("jshtjfmsqsz");
    reveal_strlit("qzzxsqs");
    reveal_strlit("zsjcczfjgtxzcssqs");
    reveal_strlit("cyfpsqs");
    reveal_strlit("zxdbsqs");
    reveal_strlit("zxyysqs");
    reveal_strlit("zxfysqs");
}

proof fn form_marks_from_24()
    ensures
        kind_with_mark(form_mark("zxjdsqs"@)) == 24,
        kind_with_mark(form_mark("qryxgmqsqs"@)) == 25,
        kind_with_mark(form_mark("byzxzccjdjshgzzqwssqs"@)) == 26,
        kind_with_mark(form_mark("mjjddbz"@)) == 27,
        kind_with_mark(form_mark("lhjfdbz"@)) == 28,
        kind_with_mark(form_mark("mmhtdbz"@)) == 29,
        kind_with_mark(form_mark("wyfwdbz"@)) == 30,
        kind_with_mark(form_mark("ldzydbz"@)) == 31,
{
    reveal(form_mark);
    reveal(kind_with_mark);
    reveal_strlit("zxjdsqs");
    reveal_strlit("qryxgmqsqs");
    reveal_strlit("byzxzccjdjshgzzqwssqs");
    reveal_strlit("mjjddbz");
    reveal_strlit("lhjfdbz");
    reveal_strlit("mmhtdbz");
    reveal_strlit("wyfwdbz");
    reveal_strlit("ldzydbz");
}

proof fn form_marks_from_32()
    ensures
        kind_with_mark(form_mark("jdcjtsgdbz"@)) == 32,
        kind_with_mark(form_mark("jrjkdbz"@)) == 33,
        kind_with_mark(form_mark("yhxykdbz"@)) == 34,
        kind_with_mark(form_mark("rzzlhtdbz"@)) == 35,
        kind_with_mark(form_mark("bzbxhtdbz"@)) == 36,
        kind_with_mark(form_mark("zqxjcszrdbz"@)) == 37,
        kind_with_mark(form_mark("fwmmhtjfmsdbz"@)) == 38,
        kind_with_mark(form_mark("fwzlhtjfmsdbz"@)) == 39,
{
    reveal(form_mark);
    reveal(kind_with_mark);
    reveal_strlit("jdcjtsgdbz");
    reveal_strlit("jrjkdbz");
    reveal_strlit("yhxykdbz");
    reveal_strlit("rzzlhtdbz");
    reveal_strlit("bzbxhtdbz");
    reveal_strlit("zqxjcszrdbz");
    reveal_strlit("fwmmhtjfmsdbz");
    reveal_strlit("fwzlhtjfmsdbz");
}

proof fn form_marks_from_40()
    ensures
        kind_with_mark(form_mark("ccssbxhtjfmsdbz"@)) == 40,
        kind_with_mark(form_mark("jsgcsghtjfmsdbz"@)) == 41,
        kind_with_mark(form_mark("zrbxhtjfmsdbz"@)) == 42,
        kind_with_mark(form_mark("rsbxhtjfmsdbz"@)) == 43,
        kind_with_mark(form_mark("jshtjfmsdbz"@)) == 44,
        kind_with_mark(form_mark("xzdbz"@)) == 45,
        kind_with_mark(form_mark("sbcxfsxzjfdsryjcss"@)) == 46,
        kind_with_mark(form_mark("sbwxxzjfdsryjcss"@)) == 47,
{
    reveal(form_mark);
    reveal(kind_with_mark);
    reveal_strlit("ccssbxhtjfmsdbz");
    reveal_strlit("jsgcsghtjfmsdbz");
    reveal_strlit("zrbxhtjfmsdbz");
    reveal_strlit("rsbxhtjfmsdbz");
    reveal_strlit("jshtjfmsdbz");
    reveal_strlit("xzdbz");
    reveal_strlit("sbcxfsxzjfdsryjcss");
    reveal_strlit("sbwxxzjfdsryjcss");
}

proof fn form_marks_from_48()
    ensures
        kind_with_mark(form_mark("zlwxxzjfdsryjcss"@)) == 48,
        kind_with_mark(form_mark("mjjdjftjsqs"@)) == 49,
        kind_with_mark(form_mark("lhjftjsqs"@)) == 50,
        kind_with_mark(form_mark("ldjftjsqs"@)) == 51,
        kind_with_mark(form_mark("jdcjtsgzrjftjsqs"@)) == 52,
        kind_with_mark(form_mark("mjjdjftjdbyjs"@)) == 53,
        kind_with_mark(form_mark("lhjftjdbyjs"@)) == 54,
        kind_with_mark(form_mark("ldjftjdbyjs"@)) == 55,
{
    reveal(form_mark);
    reveal(kind_with_mark);
    reveal_strlit("zlwxxzjfdsryjcss");
    reveal_strlit("mjjdjftjsqs");
    reveal_strlit("lhjftjsqs");
    reveal_strlit("ldjftjsqs");
    reveal_strlit("jdcjtsgzrjftjsqs");
    reveal_strlit("mjjdjftjdbyjs");
    reveal_strlit("lhjftjdbyjs");
    reveal_strlit("ldjftjdbyjs");
}

proof fn form_marks_from_56()
    ensures
        kind_with_mark(form_mark("jdcjtsgzrjftjdbyjs"@)) == 56,
        kind_with_mark(form_mark("zjqd"@)) == 57,
        kind_with_mark(form_mark("zcsqs"@)) == 58,
        kind_with_mark(form_mark("sqwtsgr"@)) == 59,
        kind_with_mark(form_mark("xzfysqsgr"@)) == 60,
        kind_with_mark(form_mark("xzfysqsdw"@)) == 61,
{
    reveal(form_mark);
    reveal(kind_with_mark);
    reveal_strlit("jdcjtsgzrjftjdbyjs");
    reveal_strlit("zjqd");
    reveal_strlit("zcsqs");
    reveal_strlit("sqwtsgr");
    reveal_strlit("xzfysqsgr");
    reveal_strlit("xzfysqsdw");
}

/// A form tells which kind of document it is for.
proof fn lemma_form_tells_kind(id: Seq<char>)
    requires
        mbid_of(id) is Some,
    ensures
        ({
            let k = kind_with_mark(form_mark(mbid_of(id)->0));
            0 <= k < 62 && kind(k) == id
        }),
{
    reveal(kind);
    form_marks_from_0();
    form_marks_from_8();
    form_marks_from_16();
    form_marks_from_24();
    form_marks_from_32();
    form_marks_from_40();
    form_marks_from_48();
    form_marks_from_56();
}

/// The kinds of documents of the catalogue have a form, and nothing else has one.
pub proof fn only_kinds_have_forms(id: Seq<char>)
    ensures
        mbid_of(id) is Some <==> exists|i: int|
            0 <= i < rows().len() && (#[trigger] rows()[i]).0 == id,
{
    lemma_kinds();
    if mbid_of(id) is Some {
        lemma_form_tells_kind(id);
        let k = kind_with_mark(form_mark(mbid_of(id)->0));
        assert(rows()[k].0 == id);
    }
    if exists|i: int| 0 <= i < rows().len() && (#[trigger] rows()[i]).0 == id {
        let i = choose|i: int| 0 <= i < rows().len() && (#[trigger] rows()[i]).0 == id;
        lemma_kind_has_form(i);
    }
}

/// No two ids share a form.
pub proof fn no_two_ids_share_a_form(a: Seq<char>, b: Seq<char>)
    requires
        mbid_of(a) is Some,
        mbid_of(b) is Some,
        a != b,
    ensures
        mbid_of(a) != mbid_of(b),
{
    lemma_form_tells_kind(a);
    lemma_form_tells_kind(b);
}

/// No two kinds of documents of the catalogue share a form.
pub proof fn no_two_kinds_share_a_form(i: int, j: int)
    requires
        0 <= i < rows().len(),
        0 <= j < rows().len(),
        mbid_of(rows()[i].0) == mbid_of(rows()[j].0),
    ensures
        i == j,
{
    only_kinds_have_forms(rows()[i].0);
    lemma_form_tells_kind(rows()[i].0);
    lemma_form_tells_kind(rows()[j].0);
    if i < j {
        ids_are_distinct(i, j);
    } else if j < i {
        ids_are_distinct(j, i);
    }
}

/// What the name of a file is before its last dot.
pub open spec fn stem_of(name: Seq<char>) -> Seq<char>
    decreases name.len(),
{
    if !name.contains('.') || name.len() == 0 {
        name
    } else if name.last() == '.' {
        name.drop_last()
    } else {
        stem_of(name.drop_last())
    }
}

fn file_stem(name: &str) -> (r: String)
    ensures
        r@ == stem_of(name@),
{
    let cs = chars_of(name);
    let n: usize = cs.len();
    let mut i: usize = n;
    assert(cs@.subrange(0, n as int) =~= cs@);
    while i > 0
        invariant
            n == cs@.len(),
            i <= n,
            cs@ == name@,
            forall|k: int| i <= k < n ==> cs@[k] != '.',
            name@.contains('.') ==> cs@.subrange(0, i as int).contains('.'),
            name@.contains('.') ==> stem_of(name@) == stem_of(cs@.subrange(0, i as int)),
        decreases i,
    {
        let ghost part = cs@.subrange(0, i as int);
        assert(part.drop_last() =~= cs@.subrange(0, i - 1));
        assert(part.last() == cs@[i - 1]);
        if cs[i - 1] == '.' {
            assert(name@.contains('.'));
            let head = copy_range(cs.as_slice(), 0, i - 1);
            return string_of(head.as_slice());
        }
        proof {
            if name@.contains('.') {
                let k = choose|k: int| 0 <= k < part.len() && part[k] == '.';
                assert(part.drop_last()[k] == '.');
            }
        }
        i = i - 1;
    }
    assert(!name@.contains('.'));
    string_of(cs.as_slice())
}

/// The name of the converted document.
pub open spec fn converted_name(filename: Seq<char>) -> Seq<char> {
    let stem = stem_of(filename);
    let converted = replace_all(stem, "传统"@, "要素式"@);
    if converted == stem {
        "要素式"@ + stem + ".docx"@
    } else {
        converted + ".docx"@
    }
}

/// The name of the converted document: `传统` in the name becomes `要素式`, or
/// that is put in front.
pub fn element_filename(filename: &str) -> (r: String)
    ensures
        r@ == converted_name(filename@),
{
    let stem = file_stem(filename);
    let converted = replace_text(stem.as_str(), "传统", "要素式");
    if same_text(converted.as_str(), stem.as_str()) {
        cat3("要素式", stem.as_str(), ".docx")
    } else {
        cat2(converted.as_str(), ".docx")
    }
}

/// What is said against a conversion before anything is read or sent, if
/// anything.
pub open spec fn request_objection(confirmed: bool, template_id: Seq<char>) -> Option<Seq<char>> {
    if !confirmed {
        Some("未获得本次外部上传确认"@)
    } else if mbid_of(template_id) is None {
        Some("该文书类型尚未映射到 Fachuan 外部转换格式"@)
    } else {
        None
    }
}

/// Checks that a conversion was confirmed this time and that there is a form
/// for the kind of document. Nothing may be read or sent before.
pub fn check_request(confirmed: bool, template_id: &str) -> (r: Result<&'static str, String>)
    ensures
        match request_objection(confirmed, template_id@) {
            Some(m) => r matches Err(e) && e@ == m,
            None => r matches Ok(mbid) && mbid_of(template_id@) == Some(mbid@),
        },
{
    if !confirmed {
        return Err(String::from_str("未获得本次外部上传确认"));
    }
    match fachuan_mbid_for_template(template_id) {
        Some(m) => Ok(m),
        None => Err(String::from_str("该文书类型尚未映射到 Fachuan 外部转换格式")),
    }
}

/// Checks the size of a source and the extension of its name.
pub fn check_upload(len: u64, extension: &str) -> (r: Result<(), String>)
    ensures
        match source_objection(len, extension@, false) {
            Some(m) => r matches Err(e) && e@ == m,
            None => r is Ok,
        },
{
    check_source(len, extension, false)
}

/// The name under which a source is sent.
pub fn upload_name(file_name: Option<String>) -> (r: String)
    ensures
        match file_name {
            Some(n) => r@ == if is_blank(n@) {
                "document.docx"@
            } else {
                n@
            },
            None => r@ == "document.docx"@,
        },
{
    match file_name {
        Some(n) => if blank(n.as_str()) {
            String::from_str("document.docx")
        } else {
            n
        },
        None => String::from_str("document.docx"),
    }
}

/// Takes what the service returned for a converted document, if it is one. What
/// is taken can be kept: decoded, it gives back the bytes that were returned.
pub fn accept_result(result: Vec<u8>, filename: &str) -> (r: Result<ExternalElementResult, String>)
    ensures
        if result@.len() > MAX_INPUT_BYTES {
            r matches Err(e) && e@ == "要素式转换结果超过 20MB 上限"@
        } else if !is_archive(result@) {
            r matches Err(e) && e@ == "智能转写服务未返回有效 DOCX 文件"@
        } else {
            r matches Ok(o) && o.filename@ == converted_name(filename@) && o.data_base64@
                == base64_text(result@) && o.preview_text@
                == "智能转写服务已返回 Word 文件。请保存后在 Word 中审阅表格内容。"@
        },
        r matches Ok(o) ==> base64_bytes(o.data_base64@) == Some(result@) && docx_objection(
            base64_bytes(o.data_base64@),
        ) is None,
{
    if result.len() as u64 > MAX_INPUT_BYTES {
        return Err(String::from_str("要素式转换结果超过 20MB 上限"));
    }
    if !(result.len() >= 2 && result[0] == 80 && result[1] == 75) {
        return Err(String::from_str("智能转写服务未返回有效 DOCX 文件"));
    }
    Ok(
        ExternalElementResult {
            filename: element_filename(filename),
            data_base64: encode_base64(result.as_slice()),
            preview_text: String::from_str(
                "智能转写服务已返回 Word 文件。请保存后在 Word 中审阅表格内容。",
            ),
        },
    )
}

/// What a reply says of a failure.
pub open spec fn failure_text(prefix: Seq<char>, reply: JsonModel) -> Seq<char> {
    let said = match reply.member("message"@) {
        Some(m) => Some(m),
        None => reply.member("msg"@),
    };
    match said {
        Some(JsonModel::Str(s)) => if is_blank(s) {
            prefix
        } else {
            prefix + ": "@ + s
        },
        _ => prefix,
    }
}

/// What a reply says of a failure: the prefix, and behind it the message of the
/// service if there is one.
pub fn service_error(prefix: &str, reply: &Json) -> (r: String)
    ensures
        r@ == failure_text(prefix@, reply@),
{
    let said = match reply.get("message") {
        Some(m) => Some(m),
        None => reply.get("msg"),
    };
    match said {
        Some(Json::Str(s)) => if blank(s.as_str()) {
            String::from_str(prefix)
        } else {
            cat3(prefix, ": ", s.as_str())
        },
        _ => String::from_str(prefix),
    }
}

/// A reply says that it succeeded.
pub open spec fn succeeded(reply: JsonModel) -> bool {
    reply.member("success"@) == Some(JsonModel::Bool(true))
}

/// Checks that a reply says that it succeeded.
pub fn require_success(reply: &Json, message: &str) -> (r: Result<(), String>)
    ensures
        if succeeded(reply@) {
            r is Ok
        } else {
            r matches Err(e) && e@ == failure_text(message@, reply@)
        },
{
    match reply.get("success") {
        Some(Json::Bool(true)) => Ok(()),
        _ => Err(service_error(message, reply)),
    }
}

/// The text of a member that is there and not empty.
pub open spec fn present_text(reply: JsonModel, key: Seq<char>) -> Option<Seq<char>> {
    match reply.text_member(key) {
        Some(s) => if s.len() == 0 {
            None
        } else {
            Some(s)
        },
        None => None,
    }
}

/// The text of a member that must be there and not empty.
pub fn required_str(reply: &Json, key: &str, message: &str) -> (r: Result<String, String>)
    ensures
        match present_text(reply@, key@) {
            Some(s) => r matches Ok(t) && t@ == s,
            None => r matches Err(e) && e@ == message@,
        },
{
    match reply.get_text(key) {
        Some(s) => if s.as_str().unicode_len() == 0 {
            Err(String::from_str(message))
        } else {
            Ok(s.clone())
        },
        None => Err(String::from_str(message)),
    }
}

/// What stands in an address behind `signatureCode=` up to the next `&`.
pub open spec fn signature_of(address: Seq<char>) -> Option<Seq<char>> {
    match find(address, "signatureCode="@) {
        None => None,
        Some(i) => {
            let rest = address.subrange(i + "signatureCode="@.len(), address.len() as int);
            let value = split_on(rest, '&')[0];
            if value.len() == 0 {
                None
            } else {
                Some(value)
            }
        },
    }
}

fn find_signature(address: &str) -> (r: Option<String>)
    ensures
        match r {
            Some(s) => signature_of(address@) == Some(s@),
            None => signature_of(address@) is None,
        },
{
    let cs = chars_of(address);
    let mark = chars_of("signatureCode=");
    proof {
        lemma_find_from(address@, "signatureCode="@, 0);
    }
    match find_chars(cs.as_slice(), mark.as_slice(), 0) {
        None => None,
        Some(i) => {
            let n: usize = cs.len();
            let rest = copy_range(cs.as_slice(), i + mark.len(), n);
            let rest_text = string_of(rest.as_slice());
            proof {
                crate::text::lemma_split_on_len(rest_text@, '&');
            }
            let parts = split_text(rest_text.as_str(), '&');
            assert(texts(parts@).len() == parts@.len());
            assert(texts(parts@)[0] == parts@[0]@);
            let value = parts[0].clone();
            if value.as_str().unicode_len() == 0 {
                None
            } else {
                Some(value)
            }
        },
    }
}

/// The parameters of an address, in their order, as the url crate reads them;
/// nothing if it takes the text for no address.
pub uninterp spec fn url_params(text: Seq<char>) -> Option<Seq<(Seq<char>, Seq<char>)>>;

pub open spec fn params_model(params: Seq<(String, String)>) -> Seq<(Seq<char>, Seq<char>)> {
    Seq::new(params.len(), |i: int| (params[i].0@, params[i].1@))
}

pub open spec fn params_option(params: Option<Vec<(String, String)>>) -> Option<
    Seq<(Seq<char>, Seq<char>)>,
> {
    match params {
        Some(p) => Some(params_model(p@)),
        None => None,
    }
}

/// `reqwest::Url::parse` reads an address and `query_pairs` the parameters in it.
/// Whether it succeeds and what it reads depend on the text alone.
#[verifier::external_body]
fn read_params(text: &str) -> (r: Option<Vec<(String, String)>>)
    ensures
        params_option(r) == url_params(text@),
{
    let url = Url::parse(text).ok()?;
    Some(url.query_pairs().map(|(k, v)| (k.into_owned(), v.into_owned())).collect())
}

/// A host to put before an address that has none.
pub const NO_HOST: &'static str = "https://placeholder.invalid";

/// The parameters of an address: as it was read, or else as it was read behind a
/// host.
pub open spec fn chosen_params(
    direct: Option<Seq<(Seq<char>, Seq<char>)>>,
    behind_host: Option<Seq<(Seq<char>, Seq<char>)>>,
) -> Result<Seq<(Seq<char>, Seq<char>)>, Seq<char>> {
    match direct {
        Some(p) => Ok(p),
        None => match behind_host {
            Some(p) => Ok(p),
            None => Err("无法解析要素式 Word 下载地址"@),
        },
    }
}

pub open spec fn params_result(r: Result<Vec<(String, String)>, String>) -> Result<
    Seq<(Seq<char>, Seq<char>)>,
    Seq<char>,
> {
    match r {
        Ok(p) => Ok(params_model(p@)),
        Err(e) => Err(e@),
    }
}

/// The parameters of an address, as it was read or else as it was read behind a
/// host.
pub fn choose_params(
    direct: Option<Vec<(String, String)>>,
    behind_host: Option<Vec<(String, String)>>,
) -> (r: Result<Vec<(String, String)>, String>)
    ensures
        params_result(r) == chosen_params(params_option(direct), params_option(behind_host)),
{
    match direct {
        Some(p) => Ok(p),
        None => match behind_host {
            Some(p) => Ok(p),
            None => Err(String::from_str("无法解析要素式 Word 下载地址")),
        },
    }
}

/// The parameters in the address of a converted document.
pub open spec fn params_of(address: Seq<char>) -> Result<Seq<(Seq<char>, Seq<char>)>, Seq<char>> {
    chosen_params(url_params(address), url_params(NO_HOST@ + address))
}

/// The parameters in the address of a converted document. The address may lack a
/// host.
pub fn download_params(address: &str) -> (r: Result<Vec<(String, String)>, String>)
    ensures
        params_result(r) == params_of(address@),
{
    let full = cat2(NO_HOST, address);
    choose_params(read_params(address), read_params(full.as_str()))
}

/// Which reply is awaited.
#[derive(PartialEq, Eq, Structural)]
pub enum Stage {
    /// The way into the service.
    Entry,
    /// The token and the address of this device.
    Authentication,
    /// The code of this device.
    Device,
    /// The text of the document.
    Upload,
    /// The elements of the document.
    Transcription,
    /// The address of the converted document.
    Rendering,
    /// The converted document itself.
    Download,
}

/// A conversion under way.
pub struct Conversion {
    pub stage: Stage,
    pub mbid: String,
    pub token: String,
    pub mac: String,
    pub device: String,
}

/// A conversion as data.
pub struct ConversionModel {
    pub stage: Stage,
    pub mbid: Seq<char>,
    pub token: Seq<char>,
    pub mac: Seq<char>,
    pub device: Seq<char>,
}

impl View for Conversion {
    type V = ConversionModel;

    open spec fn view(&self) -> ConversionModel {
        ConversionModel {
            stage: self.stage,
            mbid: self.mbid@,
            token: self.token@,
            mac: self.mac@,
            device: self.device@,
        }
    }
}

/// What to ask the service next.
pub enum ServiceRequest {
    Authenticate { signature: String },
    Device { mac: String },
    Upload { mac: String },
    Transcribe { token: String, mac: String, text: String, mbid: String },
    Render { token: String, mac: String, mbid: String, data: Json, device: String },
    Download { token: String, mac: String, params: Vec<(String, String)> },
}

/// A request as data.
pub enum RequestModel {
    Authenticate { signature: Seq<char> },
    Device { mac: Seq<char> },
    Upload { mac: Seq<char> },
    Transcribe { token: Seq<char>, mac: Seq<char>, text: Seq<char>, mbid: Seq<char> },
    Render {
        token: Seq<char>,
        mac: Seq<char>,
        mbid: Seq<char>,
        data: JsonModel,
        device: Seq<char>,
    },
    Download { token: Seq<char>, mac: Seq<char>, params: Seq<(Seq<char>, Seq<char>)> },
}

impl View for ServiceRequest {
    type V = RequestModel;

    open spec fn view(&self) -> RequestModel {
        match *self {
            ServiceRequest::Authenticate { signature } => RequestModel::Authenticate {
                signature: signature@,
            },
            ServiceRequest::Device { mac } => RequestModel::Device { mac: mac@ },
            ServiceRequest::Upload { mac } => RequestModel::Upload { mac: mac@ },
            ServiceRequest::Transcribe { token, mac, text, mbid } => RequestModel::Transcribe {
                token: token@,
                mac: mac@,
                text: text@,
                mbid: mbid@,
            },
            ServiceRequest::Render { token, mac, mbid, data, device } => RequestModel::Render {
                token: token@,
                mac: mac@,
                mbid: mbid@,
                data: data@,
                device: device@,
            },
            ServiceRequest::Download { token, mac, params } => RequestModel::Download {
                token: token@,
                mac: mac@,
                params: params_model(params@),
            },
        }
    }
}

/// What a reply leads to.
pub type Advance = Result<(ConversionModel, RequestModel), Seq<char>>;

pub open spec fn after_entry(c: ConversionModel, reply: JsonModel) -> Advance {
    if reply.text_member("code"@) != Some("200"@) {
        Err(failure_text("获取智能转写入口失败"@, reply))
    } else {
        match present_text(reply, "data"@) {
            None => Err("智能转写入口缺少认证地址"@),
            Some(address) => match signature_of(address) {
                None => Err("智能转写入口缺少 signatureCode"@),
                Some(signature) => Ok(
                    (
                        ConversionModel { stage: Stage::Authentication, ..c },
                        RequestModel::Authenticate { signature },
                    ),
                ),
            },
        }
    }
}

pub open spec fn after_authentication(c: ConversionModel, reply: JsonModel) -> Advance {
    if !succeeded(reply) {
        Err(failure_text("智能转写认证失败"@, reply))
    } else {
        match reply.member("data"@) {
            None => Err("智能转写认证结果缺少 data"@),
            Some(data) => match present_text(data, "token"@) {
                None => Err("智能转写认证结果缺少 token"@),
                Some(token) => match present_text(data, "mac"@) {
                    None => Err("智能转写认证结果缺少 mac"@),
                    Some(mac) => Ok(
                        (
                            ConversionModel { stage: Stage::Device, token, mac, ..c },
                            RequestModel::Device { mac },
                        ),
                    ),
                },
            },
        }
    }
}

pub open spec fn after_device(c: ConversionModel, reply: JsonModel) -> Advance {
    if !succeeded(reply) {
        Err(failure_text("获取智能转写设备标识失败"@, reply))
    } else {
        match present_text(reply, "code"@) {
            None => Err("智能转写结果缺少设备标识"@),
            Some(device) => Ok(
                (
                    ConversionModel { stage: Stage::Upload, device, ..c },
                    RequestModel::Upload { mac: c.mac },
                ),
            ),
        }
    }
}

pub open spec fn after_upload(c: ConversionModel, reply: JsonModel) -> Advance {
    if !succeeded(reply) {
        Err(failure_text("传统文书上传失败"@, reply))
    } else {
        match present_text(reply, "data"@) {
            None => Err("传统文书识别结果为空"@),
            Some(text) => Ok(
                (
                    ConversionModel { stage: Stage::Transcription, ..c },
                    RequestModel::Transcribe { token: c.token, mac: c.mac, text, mbid: c.mbid },
                ),
            ),
        }
    }
}

pub open spec fn after_transcription(c: ConversionModel, reply: JsonModel) -> Advance {
    if !succeeded(reply) {
        Err(failure_text("传统文书智能转写失败"@, reply))
    } else {
        match reply.member("data"@) {
            None => Err("智能转写结果缺少结构化数据"@),
            Some(data) => Ok(
                (
                    ConversionModel { stage: Stage::Rendering, ..c },
                    RequestModel::Render {
                        token: c.token,
                        mac: c.mac,
                        mbid: c.mbid,
                        data: settled(data),
                        device: c.device,
                    },
                ),
            ),
        }
    }
}

pub open spec fn after_rendering(c: ConversionModel, reply: JsonModel) -> Advance {
    if !succeeded(reply) {
        Err(failure_text("生成要素式 Word 失败"@, reply))
    } else {
        match present_text(reply, "data"@) {
            None => Err("生成结果缺少下载地址"@),
            Some(address) => match params_of(address) {
                Err(e) => Err(e),
                Ok(params) => Ok(
                    (
                        ConversionModel { stage: Stage::Download, ..c },
                        RequestModel::Download { token: c.token, mac: c.mac, params },
                    ),
                ),
            },
        }
    }
}

/// Where a conversion stands after a reply and what to ask next, or what is
/// said of a reply that ends it.
pub open spec fn advanced(c: ConversionModel, reply: JsonModel) -> Advance {
    match c.stage {
        Stage::Entry => after_entry(c, reply),
        Stage::Authentication => after_authentication(c, reply),
        Stage::Device => after_device(c, reply),
        Stage::Upload => after_upload(c, reply),
        Stage::Transcription => after_transcription(c, reply),
        _ => after_rendering(c, reply),
    }
}

/// From the reply to the authentication on there is a token and an address, and
/// from the reply about the device on there is its code.
pub open spec fn furnished(c: ConversionModel) -> bool {
    &&& c.stage != Stage::Entry && c.stage != Stage::Authentication ==> c.token.len() > 0
        && c.mac.len() > 0
    &&& c.stage == Stage::Upload || c.stage == Stage::Transcription || c.stage == Stage::Rendering
        || c.stage == Stage::Download ==> c.device.len() > 0
}

/// A document is sent only by a conversion that was authenticated, every
/// request carries what the authentication gave, and the form stays the same.
pub proof fn requests_are_authenticated(c: ConversionModel, reply: JsonModel)
    requires
        furnished(c),
        c.stage != Stage::Download,
    ensures
        advanced(c, reply) matches Ok((next, request)) ==> furnished(next) && next.mbid == c.mbid
            && match request {
            RequestModel::Upload { mac } => mac.len() > 0 && mac == next.mac && next.token.len()
                > 0,
            RequestModel::Transcribe { token, mac, mbid, .. } => token == next.token && mac
                == next.mac && token.len() > 0 && mbid == c.mbid,
            RequestModel::Render { token, mac, mbid, device, .. } => token == next.token && mac
                == next.mac && token.len() > 0 && mbid == c.mbid && device.len() > 0,
            RequestModel::Download { token, mac, .. } => token == next.token && mac == next.mac
                && token.len() > 0,
            _ => true,
        },
{
}

pub open spec fn advance_model(r: Result<(Conversion, ServiceRequest), String>) -> Advance {
    match r {
        Ok((c, q)) => Ok((c@, q@)),
        Err(e) => Err(e@),
    }
}

impl Conversion {
    /// A conversion that awaits the way into the service.
    pub fn begin(mbid: &str) -> (r: Self)
        ensures
            r@ == (ConversionModel {
                stage: Stage::Entry,
                mbid: mbid@,
                token: Seq::empty(),
                mac: Seq::empty(),
                device: Seq::empty(),
            }),
            furnished(r@),
    {
        let r = Conversion {
            stage: Stage::Entry,
            mbid: String::from_str(mbid),
            token: String::new(),
            mac: String::new(),
            device: String::new(),
        };
        assert(r@.token =~= Seq::empty());
        assert(r@.mac =~= Seq::empty());
        assert(r@.device =~= Seq::empty());
        r
    }

    /// Takes a reply of the service and says what to ask next.
    pub fn advance(self, reply: &Json) -> (r: Result<(Conversion, ServiceRequest), String>)
        requires
            self.stage != Stage::Download,
        ensures
            advance_model(r) == advanced(self@, reply@),
    {
        match self.stage {
            Stage::Entry => self.take_entry(reply),
            Stage::Authentication => self.take_authentication(reply),
            Stage::Device => self.take_device(reply),
            Stage::Upload => self.take_upload(reply),
            Stage::Transcription => self.take_transcription(reply),
            _ => self.take_rendering(reply),
        }
    }

    fn take_entry(self, reply: &Json) -> (r: Result<(Conversion, ServiceRequest), String>)
        ensures
            advance_model(r) == after_entry(self@, reply@),
    {
        let good = match reply.get_text("code") {
            Some(code) => same_text(code.as_str(), "200"),
            None => false,
        };
        if !good {
            return Err(service_error("获取智能转写入口失败", reply));
        }
        let address = match required_str(reply, "data", "智能转写入口缺少认证地址") {
            Ok(a) => a,
            Err(e) => {
                return Err(e);
            },
        };
        match find_signature(address.as_str()) {
            None => Err(String::from_str("智能转写入口缺少 signatureCode")),
            Some(signature) => Ok(
                (
                    Conversion { stage: Stage::Authentication, ..self },
                    ServiceRequest::Authenticate { signature },
                ),
            ),
        }
    }

    fn take_authentication(self, reply: &Json) -> (r: Result<(Conversion, ServiceRequest), String>)
        ensures
            advance_model(r) == after_authentication(self@, reply@),
    {
        match require_success(reply, "智能转写认证失败") {
            Ok(_) => {},
            Err(e) => {
                return Err(e);
            },
        }
        let data = match reply.get("data") {
            Some(d) => d,
            None => {
                return Err(String::from_str("智能转写认证结果缺少 data"));
            },
        };
        let token = match required_str(data, "token", "智能转写认证结果缺少 token") {
            Ok(t) => t,
            Err(e) => {
                return Err(e);
            },
        };
        let mac = match required_str(data, "mac", "智能转写认证结果缺少 mac") {
            Ok(t) => t,
            Err(e) => {
                return Err(e);
            },
        };
        let request = ServiceRequest::Device { mac: mac.clone() };
        Ok((Conversion { stage: Stage::Device, token, mac, ..self }, request))
    }

    fn take_device(self, reply: &Json) -> (r: Result<(Conversion, ServiceRequest), String>)
        ensures
            advance_model(r) == after_device(self@, reply@),
    {
        match require_success(reply, "获取智能转写设备标识失败") {
            Ok(_) => {},
            Err(e) => {
                return Err(e);
            },
        }
        let device = match required_str(reply, "code", "智能转写结果缺少设备标识") {
            Ok(t) => t,
            Err(e) => {
                return Err(e);
            },
        };
        let request = ServiceRequest::Upload { mac: self.mac.clone() };
        Ok((Conversion { stage: Stage::Upload, device, ..self }, request))
    }

    fn take_upload(self, reply: &Json) -> (r: Result<(Conversion, ServiceRequest), String>)
        ensures
            advance_model(r) == after_upload(self@, reply@),
    {
        match require_success(reply, "传统文书上传失败") {
            Ok(_) => {},
            Err(e) => {
                return Err(e);
            },
        }
        let text = match required_str(reply, "data", "传统文书识别结果为空") {
            Ok(t) => t,
            Err(e) => {
                return Err(e);
            },
        };
        let request = ServiceRequest::Transcribe {
            token: self.token.clone(),
            mac: self.mac.clone(),
            text,
            mbid: self.mbid.clone(),
        };
        Ok((Conversion { stage: Stage::Transcription, ..self }, request))
    }

    fn take_transcription(self, reply: &Json) -> (r: Result<(Conversion, ServiceRequest), String>)
        ensures
            advance_model(r) == after_transcription(self@, reply@),
    {
        match require_success(reply, "传统文书智能转写失败") {
            Ok(_) => {},
            Err(e) => {
                return Err(e);
            },
        }
        let data = match reply.get("data") {
            Some(d) => d,
            None => {
                return Err(String::from_str("智能转写结果缺少结构化数据"));
            },
        };
        let request = ServiceRequest::Render {
            token: self.token.clone(),
            mac: self.mac.clone(),
            mbid: self.mbid.clone(),
            data: settle(data),
            device: self.device.clone(),
        };
        Ok((Conversion { stage: Stage::Rendering, ..self }, request))
    }

    fn take_rendering(self, reply: &Json) -> (r: Result<(Conversion, ServiceRequest), String>)
        ensures
            advance_model(r) == after_rendering(self@, reply@),
    {
        match require_success(reply, "生成要素式 Word 失败") {
            Ok(_) => {},
            Err(e) => {
                return Err(e);
            },
        }
        let address = match required_str(reply, "data", "生成结果缺少下载地址") {
            Ok(t) => t,
            Err(e) => {
                return Err(e);
            },
        };
        let params = match download_params(address.as_str()) {
            Ok(p) => p,
            Err(e) => {
                return Err(e);
            },
        };
        let request = ServiceRequest::Download {
            token: self.token.clone(),
            mac: self.mac.clone(),
            params,
        };
        Ok((Conversion { stage: Stage::Download, ..self }, request))
    }
}

/// How a request failed before there was a reply.
pub enum TransportFailure {
    Timeout,
    NoConnection,
    Other(String),
}

/// What is said of a request that failed before there was a reply.
pub fn transport_error(failure: &TransportFailure, step: &str) -> (r: String)
    ensures
        match failure {
            TransportFailure::Timeout => r@ == step@ + "超时("@ + decimal(60)
                + " 秒)，请稍后重试"@,
            TransportFailure::NoConnection => r@ == step@ + "无法连接智能转写服务，请检查网络"@,
            TransportFailure::Other(e) => r@ == step@ + "失败: "@ + e@,
        },
{
    match failure {
        TransportFailure::Timeout => {
            let mut out = cat2(step, "超时(");
            let n = decimal_text(CONVERT_TIMEOUT_SECS as u128);
            out.append(n.as_str());
            out.append(" 秒)，请稍后重试");
            out
        },
        TransportFailure::NoConnection => cat2(step, "无法连接智能转写服务，请检查网络"),
        TransportFailure::Other(e) => cat3(step, "失败: ", e.as_str()),
    }
}

/// What is said of a reply with a status that is no success.
pub fn status_error(step: &str, status: u16) -> (r: String)
    ensures
        r@ == step@ + "失败，HTTP 状态码 "@ + decimal(status as nat),
{
    let n = decimal_text(status as u128);
    cat3(step, "失败，HTTP 状态码 ", n.as_str())
}

/// What to do about the way into the service after a failed try.
pub enum EntryRetry {
    /// Try again after this many seconds.
    Again(u64),
    /// Give up.
    GiveUp(String),
}

/// There are two tries, one second apart.
pub fn retry_entry(attempt: u64, error: &str) -> (r: EntryRetry)
    ensures
        if attempt < 2 {
            r == EntryRetry::Again(attempt)
        } else {
            r matches EntryRetry::GiveUp(m) && m@ == "获取智能转写入口失败，已重试 2 次: "@ + error@
        },
{
    if attempt < 2 {
        EntryRetry::Again(attempt)
    } else {
        EntryRetry::GiveUp(cat2("获取智能转写入口失败，已重试 2 次: ", error))
    }
}

/// What the proxy settings of the system said so far.
pub struct ProxyModel {
    pub enabled: bool,
    pub host: Option<Seq<char>>,
    pub port: Option<nat>,
}

/// What stands behind a prefix, trimmed.
pub open spec fn behind(line: Seq<char>, prefix: Seq<char>) -> Seq<char> {
    trim(line.subrange(prefix.len() as int, line.len() as int))
}

/// The settings after one more line.
pub open spec fn proxy_step(p: ProxyModel, raw: Seq<char>) -> ProxyModel {
    let line = trim(raw);
    if "HTTPSEnable :"@.is_prefix_of(line) {
        ProxyModel { enabled: behind(line, "HTTPSEnable :"@) == "1"@, ..p }
    } else if "HTTPSProxy :"@.is_prefix_of(line) {
        ProxyModel { host: Some(behind(line, "HTTPSProxy :"@)), ..p }
    } else if "HTTPSPort :"@.is_prefix_of(line) {
        ProxyModel { port: unsigned_of(behind(line, "HTTPSPort :"@), 65535), ..p }
    } else {
        p
    }
}

/// The settings after some lines.
pub open spec fn proxy_settings(lines: Seq<Seq<char>>) -> ProxyModel
    decreases lines.len(),
{
    if lines.len() == 0 {
        ProxyModel { enabled: false, host: None, port: None }
    } else {
        proxy_step(proxy_settings(lines.drop_last()), lines.last())
    }
}

/// The address of the proxy that the settings of the system name.
pub open spec fn proxy_of(text: Seq<char>) -> Option<Seq<char>> {
    let p = proxy_settings(split_on(text, '\n'));
    match (p.host, p.port) {
        (Some(host), Some(port)) => if p.enabled && host.len() > 0 {
            Some("http://"@ + host + ":"@ + decimal(port))
        } else {
            None
        },
        _ => None,
    }
}

fn tail_behind(line: &str, prefix: &str) -> (r: String)
    requires
        prefix@.is_prefix_of(line@),
    ensures
        r@ == behind(line@, prefix@),
{
    let cs = chars_of(line);
    let n: usize = cs.len();
    let k: usize = prefix.unicode_len();
    let rest = copy_range(cs.as_slice(), k, n);
    let t = string_of(rest.as_slice());
    trim_text(t.as_str())
}

/// Reads the proxy settings of the system, as `scutil --proxy` prints them.
pub fn parse_system_proxy(text: &str) -> (r: Option<String>)
    ensures
        match r {
            Some(a) => proxy_of(text@) == Some(a@),
            None => proxy_of(text@) is None,
        },
{
    let lines = split_text(text, '\n');
    let mut enabled = false;
    let mut host: Option<String> = None;
    let mut port: Option<usize> = None;
    let ghost all = texts(lines@);
    let mut i: usize = 0;
    assert(all.subrange(0, 0) =~= Seq::<Seq<char>>::empty());
    while i < lines.len()
        invariant
            i <= lines@.len(),
            all == texts(lines@),
            proxy_settings(all.subrange(0, i as int)) == (ProxyModel {
                enabled,
                host: crate::json::optional(host),
                port: match port {
                    Some(p) => Some(p as nat),
                    None => None,
                },
            }),
        decreases lines@.len() - i,
    {
        assert(all.subrange(0, i + 1).drop_last() =~= all.subrange(0, i as int));
        let line = trim_text(lines[i].as_str());
        if begins_with(line.as_str(), "HTTPSEnable :") {
            let v = tail_behind(line.as_str(), "HTTPSEnable :");
            enabled = same_text(v.as_str(), "1");
        } else if begins_with(line.as_str(), "HTTPSProxy :") {
            host = Some(tail_behind(line.as_str(), "HTTPSProxy :"));
        } else if begins_with(line.as_str(), "HTTPSPort :") {
            let v = tail_behind(line.as_str(), "HTTPSPort :");
            port = parse_unsigned(v.as_str(), 65535);
        }
        i = i + 1;
    }
    assert(all.subrange(0, i as int) =~= all);
    match (host, port) {
        (Some(h), Some(p)) => if enabled && h.as_str().unicode_len() > 0 {
            let mut out = cat3("http://", h.as_str(), ":");
            let n = decimal_text(p as u128);
            out.append(n.as_str());
            Some(out)
        } else {
            None
        },
        _ => None,
    }
}

/// Counts of use are not shown in this edition.
pub fn telemetry_get(
    base: &str,
    key: &str,
    path: &str,
    range_start: u32,
    range_end: u32,
) -> (r: Result<String, String>)
    ensures
        r matches Err(e) && e@ == "该功能仅在作者自用版提供"@,
{
    Err(String::from_str("该功能仅在作者自用版提供"))
}

/// Credits are not reset in this edition.
pub fn reset_yuandian_credits() -> (r: Result<u64, String>)
    ensures
        r matches Err(e) && e@ == "该功能仅在作者自用版提供"@,
{
    Err(String::from_str("该功能仅在作者自用版提供"))
}

/// The code stands in an address behind its name and reaches to the next parameter,
/// or to the end.
pub proof fn signatures_stand_behind_their_name(a: Seq<char>, code: Seq<char>, b: Seq<char>)
    requires
        code.len() > 0,
        !code.contains('&'),
        forall|i: int|
            0 <= i < a.len() ==> !occurs_at(a + "signatureCode="@ + code, "signatureCode="@, i),
        forall|i: int|
            0 <= i < a.len() ==> !occurs_at(
                a + "signatureCode="@ + code + "&"@ + b,
                "signatureCode="@,
                i,
            ),
    ensures
        signature_of(a + "signatureCode="@ + code) == Some(code),
        signature_of(a + "signatureCode="@ + code + "&"@ + b) == Some(code),
{
    reveal_strlit("&");
    let name = "signatureCode="@;
    let s = a + name + code;
    let t = a + name + code + "&"@ + b;
    let k = a.len() as int;
    assert(s.subrange(k, k + name.len()) =~= name);
    assert(t.subrange(k, k + name.len()) =~= name);
    assert(occurs_at(s, name, k));
    assert(occurs_at(t, name, k));
    lemma_find_from(s, name, 0);
    lemma_find_from(t, name, 0);
    assert(find(s, name) == Some(k));
    assert(find(t, name) == Some(k));
    assert(s.subrange(k + name.len(), s.len() as int) =~= code);
    assert(t.subrange(k + name.len(), t.len() as int) =~= code.push('&') + b);
    splitting_goes_side_by_side(code, '&', b);
    assert((seq![code] + split_on(b, '&'))[0] == code);
}

/// An address without a code, or with an empty one, has none.
pub proof fn addresses_without_a_code_have_none(a: Seq<char>)
    ensures
        !contains(a, "signatureCode="@) ==> signature_of(a) is None,
        signature_of(a) matches Some(code) ==> code.len() > 0 && contains(
            a,
            "signatureCode="@,
        ),
{
    lemma_find_from(a, "signatureCode="@, 0);
    if let Some(k) = find(a, "signatureCode="@) {
        assert(occurs_at(a, "signatureCode="@, k));
    }
}

/// The name of a file loses its last ending and nothing else.
pub proof fn stems_lose_only_the_last_ending(base: Seq<char>, ending: Seq<char>)
    requires
        !ending.contains('.'),
    ensures
        stem_of(base + seq!['.'] + ending) == base,
        stem_of(ending) == ending,
    decreases ending.len(),
{
    let w = base + seq!['.'] + ending;
    assert(w[base.len() as int] == '.');
    assert(w.contains('.'));
    if ending.len() == 0 {
        assert(w.drop_last() =~= base);
        assert(w.last() == '.');
    } else {
        let t = ending.drop_last();
        assert forall|i: int| 0 <= i < t.len() implies t[i] != '.' by {
            assert(ending[i] == t[i]);
        }
        stems_lose_only_the_last_ending(base, t);
        assert(w.drop_last() =~= base + seq!['.'] + t);
        assert(w.last() == ending[ending.len() - 1]);
    }
}

/// A converted document is named after its source: in a name that says that the
/// source is an ordinary document the converted one takes its place, and to any other
/// name the word is added in front. The ending is that of a document.
pub proof fn converted_names_say_what_they_are(
    base: Seq<char>,
    rest: Seq<char>,
    ending: Seq<char>,
)
    requires
        !ending.contains('.'),
    ensures
        !contains(base, "传统"@) ==> converted_name(base + seq!['.'] + ending) == "要素式"@ + base
            + ".docx"@,
        !contains(rest, "传统"@) && (forall|i: int|
            0 <= i < base.len() ==> !occurs_at(base + "传统"@ + rest, "传统"@, i))
            ==> converted_name(base + "传统"@ + rest + seq!['.'] + ending) == base + "要素式"@ + rest
            + ".docx"@,
{
    reveal_strlit("传统");
    reveal_strlit("要素式");
    let old_word = "传统"@;
    let new_word = "要素式"@;
    stems_lose_only_the_last_ending(base, ending);
    if !contains(base, old_word) {
        texts_without_the_pattern_stay(base, old_word, new_word);
    }
    if !contains(rest, old_word) && (forall|i: int|
        0 <= i < base.len() ==> !occurs_at(base + old_word + rest, old_word, i)) {
        let stem = base + old_word + rest;
        stems_lose_only_the_last_ending(stem, ending);
        texts_without_the_pattern_stay(rest, old_word, new_word);
        the_first_place_is_replaced(base, old_word, new_word, rest);
        assert((base + new_word + rest).len() != stem.len());
    }
}

/// Nothing is sent without the user's word, nor for a kind of document that has no
/// form.
pub proof fn nothing_is_sent_unconfirmed(confirmed: bool, template_id: Seq<char>)
    ensures
        request_objection(confirmed, template_id) is None <==> confirmed && mbid_of(
            template_id,
        ) is Some,
        !confirmed ==> request_objection(confirmed, template_id) == Some(
            "未获得本次外部上传确认"@,
        ),
{
}

/// A reply that reports success leads on: to the next request, with what the reply
/// gave and what is known from before.
pub proof fn good_replies_lead_on(c: ConversionModel, reply: JsonModel, given: Seq<char>)
    requires
        given.len() > 0,
    ensures
        c.stage == Stage::Entry && reply.text_member("code"@) == Some("200"@)
            && reply.text_member("data"@) == Some(given) && signature_of(given) is Some ==> advanced(
            c,
            reply,
        ) == Ok::<(ConversionModel, RequestModel), Seq<char>>(
            (
                ConversionModel { stage: Stage::Authentication, ..c },
                RequestModel::Authenticate { signature: signature_of(given)->0 },
            ),
        ),
        c.stage == Stage::Device && reply.member("success"@) == Some(JsonModel::Bool(true))
            && reply.text_member("code"@) == Some(given) ==> advanced(c, reply) == Ok::<
            (ConversionModel, RequestModel),
            Seq<char>,
        >(
            (
                ConversionModel { stage: Stage::Upload, device: given, ..c },
                RequestModel::Upload { mac: c.mac },
            ),
        ),
        c.stage == Stage::Upload && reply.member("success"@) == Some(JsonModel::Bool(true))
            && reply.text_member("data"@) == Some(given) ==> advanced(c, reply) == Ok::<
            (ConversionModel, RequestModel),
            Seq<char>,
        >(
            (
                ConversionModel { stage: Stage::Transcription, ..c },
                RequestModel::Transcribe { token: c.token, mac: c.mac, text: given, mbid: c.mbid },
            ),
        ),
{
}

/// The token and the address that the service gave are kept as such, the elements
/// that it read are handed back to it with the form and the device, and the
/// parameters of the address that it named are those of the download.
pub proof fn what_the_service_gave_is_handed_on(
    c: ConversionModel,
    reply: JsonModel,
    data: JsonModel,
    token: Seq<char>,
    mac: Seq<char>,
)
    requires
        reply.member("success"@) == Some(JsonModel::Bool(true)),
        token.len() > 0,
        mac.len() > 0,
    ensures
        c.stage == Stage::Authentication && reply.member("data"@) == Some(data)
            && data.text_member("token"@) == Some(token) && data.text_member("mac"@) == Some(mac)
            ==> advanced(c, reply) == Ok::<(ConversionModel, RequestModel), Seq<char>>(
            (
                ConversionModel { stage: Stage::Device, token, mac, ..c },
                RequestModel::Device { mac },
            ),
        ),
        c.stage == Stage::Transcription && reply.member("data"@) == Some(data) ==> advanced(
            c,
            reply,
        ) == Ok::<(ConversionModel, RequestModel), Seq<char>>(
            (
                ConversionModel { stage: Stage::Rendering, ..c },
                RequestModel::Render {
                    token: c.token,
                    mac: c.mac,
                    mbid: c.mbid,
                    data: settled(data),
                    device: c.device,
                },
            ),
        ),
        c.stage == Stage::Rendering && reply.text_member("data"@) == Some(token) && url_params(
            token,
        ) is Some ==> advanced(c, reply) == Ok::<(ConversionModel, RequestModel), Seq<char>>(
            (
                ConversionModel { stage: Stage::Download, ..c },
                RequestModel::Download { token: c.token, mac: c.mac, params: url_params(token)->0 },
            ),
        ),
{
}

/// A reply that does not report success ends the conversion, and so does one without
/// what the next request needs. What the service says of it is passed on.
pub proof fn bad_replies_end_the_conversion(c: ConversionModel, reply: JsonModel, said: Seq<char>)
    ensures
        c.stage != Stage::Entry && reply.member("success"@) != Some(JsonModel::Bool(true))
            ==> advanced(c, reply) is Err,
        c.stage == Stage::Entry && reply.text_member("code"@) != Some("200"@) ==> advanced(
            c,
            reply,
        ) is Err,
        reply.member("data"@) is None && c.stage != Stage::Device ==> advanced(c, reply) is Err,
        c.stage != Stage::Entry && reply.member("success"@) != Some(JsonModel::Bool(true))
            && reply.text_member("message"@) == Some(said) && !is_blank(said) ==> (": "@
            + said).is_suffix_of(advanced(c, reply)->Err_0),
        c.stage != Stage::Entry && reply.member("success"@) != Some(JsonModel::Bool(true))
            && reply.member("message"@) is None && reply.text_member("msg"@) == Some(said)
            && !is_blank(said) ==> (": "@ + said).is_suffix_of(advanced(c, reply)->Err_0),
{
    lemma_failure_ends(reply, said, "智能转写认证失败"@);
    lemma_failure_ends(reply, said, "获取智能转写设备标识失败"@);
    lemma_failure_ends(reply, said, "传统文书上传失败"@);
    lemma_failure_ends(reply, said, "传统文书智能转写失败"@);
    lemma_failure_ends(reply, said, "生成要素式 Word 失败"@);
}

proof fn lemma_failure_ends(reply: JsonModel, said: Seq<char>, prefix: Seq<char>)
    ensures
        !is_blank(said) && (reply.text_member("message"@) == Some(said) || (reply.member(
            "message"@,
        ) is None && reply.text_member("msg"@) == Some(said))) ==> (": "@ + said).is_suffix_of(
            failure_text(prefix, reply),
        ),
{
    let w = prefix + ": "@ + said;
    let e = ": "@ + said;
    assert(w.subrange(w.len() - e.len(), w.len() as int) =~= e);
}

/// The last line about the proxy counts, one setting at a time, and other lines do
/// not matter.
pub proof fn the_last_setting_counts(lines: Seq<Seq<char>>, line: Seq<char>, value: Seq<char>)
    ensures
        ({
            let p = proxy_settings(lines);
            let q = proxy_settings(lines.push(line));
            &&& trim(line) == "HTTPSEnable :"@ + value ==> q.enabled == (trim(value) == "1"@)
                && q.host == p.host && q.port == p.port
            &&& trim(line) == "HTTPSProxy :"@ + value ==> q.host == Some(trim(value)) && q.enabled
                == p.enabled && q.port == p.port
            &&& trim(line) == "HTTPSPort :"@ + value ==> q.port == unsigned_of(trim(value), 65535)
                && q.enabled == p.enabled && q.host == p.host
            &&& !"HTTPS"@.is_prefix_of(trim(line)) ==> q == p
            &&& !proxy_settings(Seq::empty()).enabled
        }),
{
    reveal_strlit("HTTPSEnable :");
    reveal_strlit("HTTPSProxy :");
    reveal_strlit("HTTPSPort :");
    reveal_strlit("HTTPS");
    assert(lines.push(line).drop_last() =~= lines);
    let t = trim(line);
    let a = "HTTPSEnable :"@;
    let b = "HTTPSProxy :"@;
    let c = "HTTPSPort :"@;
    if t == a + value {
        assert(t.subrange(0, a.len() as int) =~= a);
        assert(t.subrange(a.len() as int, t.len() as int) =~= value);
    }
    if t == b + value {
        assert(t[5] == 'P' && t[6] == 'r');
        assert(t.subrange(0, b.len() as int) =~= b);
        assert(t.subrange(b.len() as int, t.len() as int) =~= value);
        if a.is_prefix_of(t) {
            assert(t[5] == a[5]);
        }
    }
    if t == c + value {
        assert(t[5] == 'P' && t[6] == 'o');
        assert(t.subrange(0, c.len() as int) =~= c);
        assert(t.subrange(c.len() as int, t.len() as int) =~= value);
        if a.is_prefix_of(t) {
            assert(t[5] == a[5]);
        }
        if b.is_prefix_of(t) {
            assert(t[6] == b[6]);
        }
    }
    if a.is_prefix_of(t) {
        assert(t.subrange(0, 5) =~= a.subrange(0, 5));
        assert("HTTPS"@ =~= a.subrange(0, 5));
    }
    if b.is_prefix_of(t) {
        assert(t.subrange(0, 5) =~= b.subrange(0, 5));
        assert("HTTPS"@ =~= b.subrange(0, 5));
    }
    if c.is_prefix_of(t) {
        assert(t.subrange(0, 5) =~= c.subrange(0, 5));
        assert("HTTPS"@ =~= c.subrange(0, 5));
    }
}

/// There is a proxy only where it is switched on and both its host and its port are
/// known, and its address is made of the two.
pub proof fn proxies_are_named_by_host_and_port(text: Seq<char>)
    ensures
        ({
            let p = proxy_settings(split_on(text, '\n'));
            &&& proxy_of(text) is Some <==> p.enabled && p.host is Some && p.host->0.len() > 0
                && p.port is Some
            &&& proxy_of(text) matches Some(a) ==> a == "http://"@ + p.host->0 + ":"@ + decimal(
                p.port->0,
            )
        }),
{
}

/// An address is read as it stands if that is possible, and behind a host otherwise.
pub proof fn addresses_are_read_as_they_stand_first(
    direct: Seq<(Seq<char>, Seq<char>)>,
    behind_host: Option<Seq<(Seq<char>, Seq<char>)>>,
)
    ensures
        chosen_params(Some(direct), behind_host) is Ok && chosen_params(
            Some(direct),
            behind_host,
        )->Ok_0 == direct,
        chosen_params(None, Some(direct)) is Ok && chosen_params(None, Some(direct))->Ok_0
            == direct,
        chosen_params(None, None) is Err,
{
}

} // verus!

//! The catalogue of documents made of elements.
use vstd::prelude::*;
use crate::element_fields::{
    common_fields, common_of, fields_model, refined_cause_fields, refined_of, special_fields,
    special_of, ElementFieldDefinition, FieldModel,
};
use crate::text::same_text;

verus! {

/// A kind of document.
pub struct ElementDocumentType {
    pub id: String,
    pub name: String,
    pub category: String,
    /// `refined` for the kinds that were worked out in detail, otherwise
    /// `review_required`.
    pub quality_level: String,
    pub template_version: String,
    pub fields: Vec<ElementFieldDefinition>,
}

/// A kind of document as data.
pub struct TypeModel {
    pub id: Seq<char>,
    pub name: Seq<char>,
    pub category: Seq<char>,
    pub quality_level: Seq<char>,
    pub template_version: Seq<char>,
    pub fields: Seq<FieldModel>,
}

impl View for ElementDocumentType {
    type V = TypeModel;

    open spec fn view(&self) -> TypeModel {
        TypeModel {
            id: self.id@,
            name: self.name@,
            category: self.category@,
            quality_level: self.quality_level@,
            template_version: self.template_version@,
            fields: fields_model(self.fields@),
        }
    }
}

pub open spec fn types_model(v: Seq<ElementDocumentType>) -> Seq<TypeModel> {
    Seq::new(v.len(), |i: int| v[i]@)
}

/// One row of the catalogue: id, name, category, and whether it is refined.
pub type Row = (Seq<char>, Seq<char>, Seq<char>, bool);

/// The elements with further ones before the last four.
pub open spec fn with_refined(fields: Seq<FieldModel>, extra: Seq<FieldModel>) -> Seq<FieldModel> {
    let k = if fields.len() >= 4 {
        fields.len() - 4
    } else {
        0
    };
    fields.subrange(0, k) + extra + fields.subrange(k, fields.len() as int)
}

/// The kind of document that a row describes.
pub open spec fn definition_of(row: Row) -> TypeModel {
    let basic = match special_of(row.1) {
        Some(f) => f,
        None => common_of(row.2),
    };
    TypeModel {
        id: row.0,
        name: row.1,
        category: row.2,
        quality_level: if row.3 {
            "refined"@
        } else {
            "review_required"@
        },
        template_version: "2026.06-v1"@,
        fields: if row.3 {
            with_refined(basic, refined_of(row.1))
        } else {
            basic
        },
    }
}

/// The kinds that some rows describe.
pub open spec fn types_of(rows: Seq<Row>) -> Seq<TypeModel> {
    Seq::new(rows.len(), |i: int| definition_of(rows[i]))
}

/// A kind of document.
pub fn definition(id: &str, name: &str, category: &str, refined: bool) -> (r: ElementDocumentType)
    ensures
        r@ == definition_of((id@, name@, category@, refined)),
{
    let mut fields = match special_fields(name) {
        Some(f) => f,
        None => common_fields(category),
    };
    if refined {
        let ghost basic = fields_model(fields@);
        let n: usize = fields.len();
        let at: usize = if n >= 4 {
            n - 4
        } else {
            0
        };
        let mut tail = fields.split_off(at);
        let mut extra = refined_cause_fields(name);
        let ghost more = fields_model(extra@);
        fields.append(&mut extra);
        fields.append(&mut tail);
        assert(fields_model(fields@) =~= with_refined(basic, more));
    }
    ElementDocumentType {
        id: String::from_str(id),
        name: String::from_str(name),
        category: String::from_str(category),
        quality_level: String::from_str(
            if refined {
                "refined"
            } else {
                "review_required"
            },
        ),
        template_version: String::from_str("2026.06-v1"),
        fields,
    }
}

/// The rows of the catalogue.
#[verifier::opaque]
pub open spec fn rows() -> Seq<Row> {
    Seq::empty()
        .push(("complaint_private_lending"@, "民间借贷起诉状"@, "起诉状"@, true))
        .push(("complaint_divorce"@, "离婚纠纷起诉状"@, "起诉状"@, true))
        .push(("complaint_sales"@, "买卖合同起诉状"@, "起诉状"@, true))
        .push(("complaint_property_service"@, "物业服务起诉状"@, "起诉状"@, true))
        .push(("complaint_labor"@, "劳动争议起诉状"@, "起诉状"@, true))
        .push(("complaint_traffic"@, "机动车交通事故起诉状"@, "起诉状"@, true))
        .push(("complaint_financial_loan"@, "金融借款起诉状"@, "起诉状"@, false))
        .push(("complaint_credit_card"@, "银行信用卡起诉状"@, "起诉状"@, false))
        .push(("complaint_finance_lease"@, "融资租赁合同起诉状"@, "起诉状"@, false))
        .push(("complaint_guarantee_insurance"@, "保证保险合同起诉状"@, "起诉状"@, false))
        .push(("complaint_securities_misstatement"@, "证券虚假陈述责任起诉状"@, "起诉状"@, false))
        .push(("complaint_house_sale"@, "房屋买卖合同起诉状"@, "起诉状"@, false))
        .push(("complaint_house_lease"@, "房屋租赁合同起诉状"@, "起诉状"@, false))
        .push(("complaint_property_loss_insurance"@, "财产损失保险合同起诉状"@, "起诉状"@, false))
        .push(("complaint_construction"@, "建设工程施工合同起诉状"@, "起诉状"@, false))
        .push(("complaint_liability_insurance"@, "责任保险合同起诉状"@, "起诉状"@, false))
        .push(("complaint_personal_insurance"@, "人身保险合同起诉状"@, "起诉状"@, false))
        .push(("complaint_technology"@, "技术合同纠纷起诉状"@, "起诉状"@, false))
        .push(("application_enforcement"@, "强制执行申请书"@, "申请书"@, false))
        .push(("application_lift_travel_restriction"@, "暂时解除乘坐飞机、高铁限制措施申请书"@, "申请书"@, false))
        .push(("application_distribution"@, "参与分配申请书"@, "申请书"@, false))
        .push(("application_enforcement_guarantee"@, "执行担保申请书"@, "申请书"@, false))
        .push(("application_enforcement_objection"@, "执行异议申请书"@, "申请书"@, false))
        .push(("application_enforcement_reconsideration"@, "执行复议申请书"@, "申请书"@, false))
        .push(("application_enforcement_supervision"@, "执行监督申请书"@, "申请书"@, false))
        .push(("application_preemptive_right"@, "确认优先购买权申请书"@, "申请书"@, false))
        .push(("application_non_enforcement"@, "不予执行申请书"@, "申请书"@, false))
        .push(("defense_private_lending"@, "民间借贷答辩状"@, "答辩状"@, true))
        .push(("defense_divorce"@, "离婚纠纷答辩状"@, "答辩状"@, true))
        .push(("defense_sales"@, "买卖合同答辩状"@, "答辩状"@, true))
        .push(("defense_property_service"@, "物业服务答辩状"@, "答辩状"@, true))
        .push(("defense_labor"@, "劳动争议答辩状"@, "答辩状"@, true))
        .push(("defense_traffic"@, "机动车交通事故答辩状"@, "答辩状"@, true))
        .push(("defense_financial_loan"@, "金融借款答辩状"@, "答辩状"@, false))
        .push(("defense_credit_card"@, "银行信用卡答辩状"@, "答辩状"@, false))
        .push(("defense_finance_lease"@, "融资租赁合同答辩状"@, "答辩状"@, false))
        .push(("defense_guarantee_insurance"@, "保证保险合同答辩状"@, "答辩状"@, false))
        .push(("defense_securities_misstatement"@, "证券虚假陈述责任答辩状"@, "答辩状"@, false))
        .push(("defense_house_sale"@, "房屋买卖合同纠纷答辩状"@, "答辩状"@, false))
        .push(("defense_house_lease"@, "房屋租赁合同纠纷答辩状"@, "答辩状"@, false))
        .push(("defense_property_loss_insurance"@, "财产损失保险合同纠纷民事答辩状"@, "答辩状"@, false))
        .push(("defense_construction"@, "建设工程施工合同纠纷答辩状"@, "答辩状"@, false))
        .push(("defense_liability_insurance"@, "责任保险合同纠纷民事答辩状"@, "答辩状"@, false))
        .push(("defense_personal_insurance"@, "人身保险合同纠纷民事答辩状"@, "答辩状"@, false))
        .push(("defense_technology"@, "技术合同纠纷答辩状"@, "答辩状"@, false))
        .push(("defense_administrative"@, "行政答辩状"@, "答辩状"@, false))
        .push(("statement_trademark_revocation"@, "商标撤销复审行政纠纷第三人意见陈述书"@, "陈述书"@, false))
        .push(("statement_trademark_invalidity"@, "商标无效行政纠纷第三人意见陈述书"@, "陈述书"@, false))
        .push(("statement_patent_invalidity"@, "专利无效行政纠纷第三人意见陈述书"@, "陈述书"@, false))
        .push(("mediation_application_private_lending"@, "民间借贷纠纷调解申请书"@, "调解申请书"@, false))
        .push(("mediation_application_divorce"@, "离婚纠纷调解申请书"@, "调解申请书"@, false))
        .push(("mediation_application_labor"@, "劳动纠纷调解申请书"@, "调解申请书"@, false))
        .push(("mediation_application_traffic"@, "机动车交通事故责任纠纷调解申请书"@, "调解申请书"@, false))
        .push(("mediation_defense_private_lending"@, "民间借贷纠纷调解答辩意见书"@, "调解答辩意见书"@, false))
        .push(("mediation_defense_divorce"@, "离婚纠纷调解答辩意见书"@, "调解答辩意见书"@, false))
        .push(("mediation_defense_labor"@, "劳动纠纷调解答辩意见书"@, "调解答辩意见书"@, false))
        .push(("mediation_defense_traffic"@, "机动车交通事故责任纠纷调解答辩意见书"@, "调解答辩意见书"@, false))
        .push(("other_evidence_list"@, "证据清单"@, "其他"@, false))
        .push(("other_arbitration_application"@, "仲裁申请书"@, "其他"@, false))
        .push(("other_power_of_attorney_personal"@, "授权委托书（个人）"@, "其他"@, false))
        .push(("other_administrative_reconsideration_personal"@, "行政复议申请书（个人）"@, "其他"@, false))
        .push(("other_administrative_reconsideration_entity"@, "行政复议申请书（单位）"@, "其他"@, false))
}

fn enter(
    types: &mut Vec<ElementDocumentType>,
    Ghost(before): Ghost<Seq<Row>>,
    id: &str,
    name: &str,
    category: &str,
    refined: bool,
) -> (after: Ghost<Seq<Row>>)
    requires
        types_model(old(types)@) == types_of(before),
    ensures
        after@ == before.push((id@, name@, category@, refined)),
        types_model(final(types)@) == types_of(after@),
{
    let ghost row = (id@, name@, category@, refined);
    let ghost done = types_model(types@);
    types.push(definition(id, name, category, refined));
    assert(types_model(types@) =~= done.push(definition_of(row)));
    assert(types_of(before.push(row)) =~= types_of(before).push(definition_of(row)));
    Ghost(before.push(row))
}

/// All kinds of documents. The ids are the library's own.
pub fn catalog() -> (r: Vec<ElementDocumentType>)
    ensures
        types_model(r@) == types_of(rows()),
        r@.len() == 62,
{
    let mut t: Vec<ElementDocumentType> = Vec::new();
    let g: Ghost<Seq<Row>> = Ghost(Seq::empty());
    assert(types_model(t@) =~= types_of(g@));
    let g = enter(&mut t, g, "complaint_private_lending", "民间借贷起诉状", "起诉状", true);
    let g = enter(&mut t, g, "complaint_divorce", "离婚纠纷起诉状", "起诉状", true);
    let g = enter(&mut t, g, "complaint_sales", "买卖合同起诉状", "起诉状", true);
    let g = enter(&mut t, g, "complaint_property_service", "物业服务起诉状", "起诉状", true);
    let g = enter(&mut t, g, "complaint_labor", "劳动争议起诉状", "起诉状", true);
    let g = enter(&mut t, g, "complaint_traffic", "机动车交通事故起诉状", "起诉状", true);
    let g = enter(&mut t, g, "complaint_financial_loan", "金融借款起诉状", "起诉状", false);
    let g = enter(&mut t, g, "complaint_credit_card", "银行信用卡起诉状", "起诉状", false);
    let g = enter(&mut t, g, "complaint_finance_lease", "融资租赁合同起诉状", "起诉状", false);
    let g = enter(&mut t, g, "complaint_guarantee_insurance", "保证保险合同起诉状", "起诉状", false);
    let g = enter(&mut t, g, "complaint_securities_misstatement", "证券虚假陈述责任起诉状", "起诉状", false);
    let g = enter(&mut t, g, "complaint_house_sale", "房屋买卖合同起诉状", "起诉状", false);
    let g = enter(&mut t, g, "complaint_house_lease", "房屋租赁合同起诉状", "起诉状", false);
    let g = enter(&mut t, g, "complaint_property_loss_insurance", "财产损失保险合同起诉状", "起诉状", false);
    let g = enter(&mut t, g, "complaint_construction", "建设工程施工合同起诉状", "起诉状", false);
    let g = enter(&mut t, g, "complaint_liability_insurance", "责任保险合同起诉状", "起诉状", false);
    let g = enter(&mut t, g, "complaint_personal_insurance", "人身保险合同起诉状", "起诉状", false);
    let g = enter(&mut t, g, "complaint_technology", "技术合同纠纷起诉状", "起诉状", false);
    let g = enter(&mut t, g, "application_enforcement", "强制执行申请书", "申请书", false);
    let g = enter(&mut t, g, "application_lift_travel_restriction", "暂时解除乘坐飞机、高铁限制措施申请书", "申请书", false);
    let g = enter(&mut t, g, "application_distribution", "参与分配申请书", "申请书", false);
    let g = enter(&mut t, g, "application_enforcement_guarantee", "执行担保申请书", "申请书", false);
    let g = enter(&mut t, g, "application_enforcement_objection", "执行异议申请书", "申请书", false);
    let g = enter(&mut t, g, "application_enforcement_reconsideration", "执行复议申请书", "申请书", false);
    let g = enter(&mut t, g, "application_enforcement_supervision", "执行监督申请书", "申请书", false);
    let g = enter(&mut t, g, "application_preemptive_right", "确认优先购买权申请书", "申请书", false);
    let g = enter(&mut t, g, "application_non_enforcement", "不予执行申请书", "申请书", false);
    let g = enter(&mut t, g, "defense_private_lending", "民间借贷答辩状", "答辩状", true);
    let g = enter(&mut t, g, "defense_divorce", "离婚纠纷答辩状", "答辩状", true);
    let g = enter(&mut t, g, "defense_sales", "买卖合同答辩状", "答辩状", true);
    let g = enter(&mut t, g, "defense_property_service", "物业服务答辩状", "答辩状", true);
    let g = enter(&mut t, g, "defense_labor", "劳动争议答辩状", "答辩状", true);
    let g = enter(&mut t, g, "defense_traffic", "机动车交通事故答辩状", "答辩状", true);
    let g = enter(&mut t, g, "defense_financial_loan", "金融借款答辩状", "答辩状", false);
    let g = enter(&mut t, g, "defense_credit_card", "银行信用卡答辩状", "答辩状", false);
    let g = enter(&mut t, g, "defense_finance_lease", "融资租赁合同答辩状", "答辩状", false);
    let g = enter(&mut t, g, "defense_guarantee_insurance", "保证保险合同答辩状", "答辩状", false);
    let g = enter(&mut t, g, "defense_securities_misstatement", "证券虚假陈述责任答辩状", "答辩状", false);
    let g = enter(&mut t, g, "defense_house_sale", "房屋买卖合同纠纷答辩状", "答辩状", false);
    let g = enter(&mut t, g, "defense_house_lease", "房屋租赁合同纠纷答辩状", "答辩状", false);
    let g = enter(&mut t, g, "defense_property_loss_insurance", "财产损失保险合同纠纷民事答辩状", "答辩状", false);
    let g = enter(&mut t, g, "defense_construction", "建设工程施工合同纠纷答辩状", "答辩状", false);
    let g = enter(&mut t, g, "defense_liability_insurance", "责任保险合同纠纷民事答辩状", "答辩状", false);
    let g = enter(&mut t, g, "defense_personal_insurance", "人身保险合同纠纷民事答辩状", "答辩状", false);
    let g = enter(&mut t, g, "defense_technology", "技术合同纠纷答辩状", "答辩状", false);
    let g = enter(&mut t, g, "defense_administrative", "行政答辩状", "答辩状", false);
    let g = enter(&mut t, g, "statement_trademark_revocation", "商标撤销复审行政纠纷第三人意见陈述书", "陈述书", false);
    let g = enter(&mut t, g, "statement_trademark_invalidity", "商标无效行政纠纷第三人意见陈述书", "陈述书", false);
    let g = enter(&mut t, g, "statement_patent_invalidity", "专利无效行政纠纷第三人意见陈述书", "陈述书", false);
    let g = enter(&mut t, g, "mediation_application_private_lending", "民间借贷纠纷调解申请书", "调解申请书", false);
    let g = enter(&mut t, g, "mediation_application_divorce", "离婚纠纷调解申请书", "调解申请书", false);
    let g = enter(&mut t, g, "mediation_application_labor", "劳动纠纷调解申请书", "调解申请书", false);
    let g = enter(&mut t, g, "mediation_application_traffic", "机动车交通事故责任纠纷调解申请书", "调解申请书", false);
    let g = enter(&mut t, g, "mediation_defense_private_lending", "民间借贷纠纷调解答辩意见书", "调解答辩意见书", false);
    let g = enter(&mut t, g, "mediation_defense_divorce", "离婚纠纷调解答辩意见书", "调解答辩意见书", false);
    let g = enter(&mut t, g, "mediation_defense_labor", "劳动纠纷调解答辩意见书", "调解答辩意见书", false);
    let g = enter(&mut t, g, "mediation_defense_traffic", "机动车交通事故责任纠纷调解答辩意见书", "调解答辩意见书", false);
    let g = enter(&mut t, g, "other_evidence_list", "证据清单", "其他", false);
    let g = enter(&mut t, g, "other_arbitration_application", "仲裁申请书", "其他", false);
    let g = enter(&mut t, g, "other_power_of_attorney_personal", "授权委托书（个人）", "其他", false);
    let g = enter(&mut t, g, "other_administrative_reconsideration_personal", "行政复议申请书（个人）", "其他", false);
    let g = enter(&mut t, g, "other_administrative_reconsideration_entity", "行政复议申请书（单位）", "其他", false);
    proof {
        reveal(rows);
    }
    assert(g@ == rows());
    assert(types_of(rows()).len() == 62);
    t
}

/// Three things of an id by which the ids of the catalogue can be told apart:
/// its length, its last character and the eleventh from the end.
#[verifier::opaque]
spec fn mark_of(id: Seq<char>) -> int {
    (id.len() * 128 + id.last() as u32) * 128 + id[id.len() - 11] as u32
}

/// The row of the catalogue whose id has a mark.
#[verifier::opaque]
spec fn row_with_mark(mark: int) -> int {
    if mark == 422881 {
        0
    } else if mark == 291561 {
        1
    } else if mark == 260588 {
        2
    } else if mark == 439026 {
        3
    } else if mark == 260460 {
        4
    } else if mark == 291305 {
        5
    } else if mark == 407393 {
        6
    } else if mark == 356963 {
        7
    } else if mark == 389870 {
        8
    } else if mark == 488165 {
        9
    } else if mark == 555625 {
        10
    } else if mark == 340703 {
        11
    } else if mark == 357096 {
        12
    } else if mark == 553715 {
        13
    } else if mark == 374639 {
        14
    } else if mark == 488185 {
        15
    } else if mark == 471788 {
        16
    } else if mark == 343263 {
        17
    } else if mark == 391781 {
        18
    } else if mark == 587634 {
        19
    } else if mark == 407401 {
        20
    } else if mark == 553716 {
        21
    } else if mark == 554868 {
        22
    } else if mark == 653166 {
        23
    } else if mark == 587635 {
        24
    } else if mark == 473712 {
        25
    } else if mark == 457317 {
        26
    } else if mark == 390113 {
        27
    } else if mark == 258798 {
        28
    } else if mark == 227814 {
        29
    } else if mark == 406258 {
        30
    } else if mark == 227686 {
        31
    } else if mark == 258542 {
        32
    } else if mark == 374625 {
        33
    } else if mark == 324195 {
        34
    } else if mark == 357102 {
        35
    } else if mark == 455397 {
        36
    } else if mark == 522857 {
        37
    } else if mark == 307935 {
        38
    } else if mark == 324328 {
        39
    } else if mark == 520947 {
        40
    } else if mark == 341871 {
        41
    } else if mark == 455417 {
        42
    } else if mark == 439020 {
        43
    } else if mark == 310495 {
        44
    } else if mark == 373481 {
        45
    } else if mark == 505695 {
        46
    } else if mark == 507103 {
        47
    } else if mark == 457951 {
        48
    } else if mark == 619489 {
        49
    } else if mark == 488169 {
        50
    } else if mark == 457057 {
        51
    } else if mark == 487913 {
        52
    } else if mark == 553953 {
        53
    } else if mark == 422638 {
        54
    } else if mark == 391526 {
        55
    } else if mark == 422382 {
        56
    } else if mark == 326249 {
        57
    } else if mark == 489313 {
        58
    } else if mark == 538213 {
        59
    } else if mark == 751215 {
        60
    } else if mark == 720116 {
        61
    } else {
        -1
    }
}

spec fn told_apart(rows: Seq<Row>) -> bool {
    forall|i: int| 0 <= i < rows.len() ==> row_with_mark(mark_of((#[trigger] rows[i]).0)) == i
}

proof fn one_more(rows: Seq<Row>, row: Row) -> (after: Seq<Row>)
    requires
        told_apart(rows),
        row_with_mark(mark_of(row.0)) == rows.len(),
    ensures
        told_apart(after),
        after == rows.push(row),
{
    assert forall|i: int| 0 <= i < rows.push(row).len() implies row_with_mark(
        mark_of((#[trigger] rows.push(row)[i]).0),
    ) == i by {
        if i < rows.len() {
            assert(rows.push(row)[i] == rows[i]);
        }
    }
    rows.push(row)
}

proof fn marks_from_0()
    ensures
        row_with_mark(mark_of("complaint_private_lending"@)) == 0,
        row_with_mark(mark_of("complaint_divorce"@)) == 1,
        row_with_mark(mark_of("complaint_sales"@)) == 2,
        row_with_mark(mark_of("complaint_property_service"@)) == 3,
        row_with_mark(mark_of("complaint_labor"@)) == 4,
        row_with_mark(mark_of("complaint_traffic"@)) == 5,
        row_with_mark(mark_of("complaint_financial_loan"@)) == 6,
        row_with_mark(mark_of("complaint_credit_card"@)) == 7,
{
    reveal(mark_of);
    reveal(row_with_mark);
    reveal_strlit("complaint_private_lending");
    reveal_strlit("complaint_divorce");
    reveal_strlit("complaint_sales");
    reveal_strlit("complaint_property_service");
    reveal_strlit("complaint_labor");
    reveal_strlit("complaint_traffic");
    reveal_strlit("complaint_financial_loan");
    reveal_strlit("complaint_credit_card");
}

proof fn marks_from_8()
    ensures
        row_with_mark(mark_of("complaint_finance_lease"@)) == 8,
        row_with_mark(mark_of("complaint_guarantee_insurance"@)) == 9,
        row_with_mark(mark_of("complaint_securities_misstatement"@)) == 10,
        row_with_mark(mark_of("complaint_house_sale"@)) == 11,
        row_with_mark(mark_of("complaint_house_lease"@)) == 12,
        row_with_mark(mark_of("complaint_property_loss_insurance"@)) == 13,
        row_with_mark(mark_of("complaint_construction"@)) == 14,
        row_with_mark(mark_of("complaint_liability_insurance"@)) == 15,
{
    reveal(mark_of);
    reveal(row_with_mark);
    reveal_strlit("complaint_finance_lease");
    reveal_strlit("complaint_guarantee_insurance");
    reveal_strlit("complaint_securities_misstatement");
    reveal_strlit("complaint_house_sale");
    reveal_strlit("complaint_house_lease");
    reveal_strlit("complaint_property_loss_insurance");
    reveal_strlit("complaint_construction");
    reveal_strlit("complaint_liability_insurance");
}

proof fn marks_from_16()
    ensures
        row_with_mark(mark_of("complaint_personal_insurance"@)) == 16,
        row_with_mark(mark_of("complaint_technology"@)) == 17,
        row_with_mark(mark_of("application_enforcement"@)) == 18,
        row_with_mark(mark_of("application_lift_travel_restriction"@)) == 19,
        row_with_mark(mark_of("application_distribution"@)) == 20,
        row_with_mark(mark_of("application_enforcement_guarantee"@)) == 21,
        row_with_mark(mark_of("application_enforcement_objection"@)) == 22,
        row_with_mark(mark_of("application_enforcement_reconsideration"@)) == 23,
{
    reveal(mark_of);
    reveal(row_with_mark);
    reveal_strlit("complaint_personal_insurance");
    reveal_strlit("complaint_technology");
    reveal_strlit("application_enforcement");
    reveal_strlit("application_lift_travel_restriction");
    reveal_strlit("application_distribution");
    reveal_strlit("application_enforcement_guarantee");
    reveal_strlit("application_enforcement_objection");
    reveal_strlit("application_enforcement_reconsideration");
}

proof fn marks_from_24()
    ensures
        row_with_mark(mark_of("application_enforcement_supervision"@)) == 24,
        row_with_mark(mark_of("application_preemptive_right"@)) == 25,
        row_with_mark(mark_of("application_non_enforcement"@)) == 26,
        row_with_mark(mark_of("defense_private_lending"@)) == 27,
        row_with_mark(mark_of("defense_divorce"@)) == 28,
        row_with_mark(mark_of("defense_sales"@)) == 29,
        row_with_mark(mark_of("defense_property_service"@)) == 30,
        row_with_mark(mark_of("defense_labor"@)) == 31,
{
    reveal(mark_of);
    reveal(row_with_mark);
    reveal_strlit("application_enforcement_supervision");
    reveal_strlit("application_preemptive_right");
    reveal_strlit("application_non_enforcement");
    reveal_strlit("defense_private_lending");
    reveal_strlit("defense_divorce");
    reveal_strlit("defense_sales");
    reveal_strlit("defense_property_service");
    reveal_strlit("defense_labor");
}

proof fn marks_from_32()
    ensures
        row_with_mark(mark_of("defense_traffic"@)) == 32,
        row_with_mark(mark_of("defense_financial_loan"@)) == 33,
        row_with_mark(mark_of("defense_credit_card"@)) == 34,
        row_with_mark(mark_of("defense_finance_lease"@)) == 35,
        row_with_mark(mark_of("defense_guarantee_insurance"@)) == 36,
        row_with_mark(mark_of("defense_securities_misstatement"@)) == 37,
        row_with_mark(mark_of("defense_house_sale"@)) == 38,
        row_with_mark(mark_of("defense_house_lease"@)) == 39,
{
    reveal(mark_of);
    reveal(row_with_mark);
    reveal_strlit("defense_traffic");
    reveal_strlit("defense_financial_loan");
    reveal_strlit("defense_credit_card");
    reveal_strlit("defense_finance_lease");
    reveal_strlit("defense_guarantee_insurance");
    reveal_strlit("defense_securities_misstatement");
    reveal_strlit("defense_house_sale");
    reveal_strlit("defense_house_lease");
}

proof fn marks_from_40()
    ensures
        row_with_mark(mark_of("defense_property_loss_insurance"@)) == 40,
        row_with_mark(mark_of("defense_construction"@)) == 41,
        row_with_mark(mark_of("defense_liability_insurance"@)) == 42,
        row_with_mark(mark_of("defense_personal_insurance"@)) == 43,
        row_with_mark(mark_of("defense_technology"@)) == 44,
        row_with_mark(mark_of("defense_administrative"@)) == 45,
        row_with_mark(mark_of("statement_trademark_revocation"@)) == 46,
        row_with_mark(mark_of("statement_trademark_invalidity"@)) == 47,
{
    reveal(mark_of);
    reveal(row_with_mark);
    reveal_strlit("defense_property_loss_insurance");
    reveal_strlit("defense_construction");
    reveal_strlit("defense_liability_insurance");
    reveal_strlit("defense_personal_insurance");
    reveal_strlit("defense_technology");
    reveal_strlit("defense_administrative");
    reveal_strlit("statement_trademark_revocation");
    reveal_strlit("statement_trademark_invalidity");
}

proof fn marks_from_48()
    ensures
        row_with_mark(mark_of("statement_patent_invalidity"@)) == 48,
        row_with_mark(mark_of("mediation_application_private_lending"@)) == 49,
        row_with_mark(mark_of("mediation_application_divorce"@)) == 50,
        row_with_mark(mark_of("mediation_application_labor"@)) == 51,
        row_with_mark(mark_of("mediation_application_traffic"@)) == 52,
        row_with_mark(mark_of("mediation_defense_private_lending"@)) == 53,
        row_with_mark(mark_of("mediation_defense_divorce"@)) == 54,
        row_with_mark(mark_of("mediation_defense_labor"@)) == 55,
{
    reveal(mark_of);
    reveal(row_with_mark);
    reveal_strlit("statement_patent_invalidity");
    reveal_strlit("mediation_application_private_lending");
    reveal_strlit("mediation_application_divorce");
    reveal_strlit("mediation_application_labor");
    reveal_strlit("mediation_application_traffic");
    reveal_strlit("mediation_defense_private_lending");
    reveal_strlit("mediation_defense_divorce");
    reveal_strlit("mediation_defense_labor");
}

proof fn marks_from_56()
    ensures
        row_with_mark(mark_of("mediation_defense_traffic"@)) == 56,
        row_with_mark(mark_of("other_evidence_list"@)) == 57,
        row_with_mark(mark_of("other_arbitration_application"@)) == 58,
        row_with_mark(mark_of("other_power_of_attorney_personal"@)) == 59,
        row_with_mark(mark_of("other_administrative_reconsideration_personal"@)) == 60,
        row_with_mark(mark_of("other_administrative_reconsideration_entity"@)) == 61,
{
    reveal(mark_of);
    reveal(row_with_mark);
    reveal_strlit("mediation_defense_traffic");
    reveal_strlit("other_evidence_list");
    reveal_strlit("other_arbitration_application");
    reveal_strlit("other_power_of_attorney_personal");
    reveal_strlit("other_administrative_reconsideration_personal");
    reveal_strlit("other_administrative_reconsideration_entity");
}

/// No two kinds of documents have the same id.
pub proof fn ids_are_distinct(i: int, j: int)
    requires
        0 <= i < j < rows().len(),
    ensures
        rows()[i].0 != rows()[j].0,
{
    let g: Seq<Row> = Seq::empty();
    marks_from_0();
    let g = one_more(g, ("complaint_private_lending"@, "民间借贷起诉状"@, "起诉状"@, true));
    let g = one_more(g, ("complaint_divorce"@, "离婚纠纷起诉状"@, "起诉状"@, true));
    let g = one_more(g, ("complaint_sales"@, "买卖合同起诉状"@, "起诉状"@, true));
    let g = one_more(g, ("complaint_property_service"@, "物业服务起诉状"@, "起诉状"@, true));
    let g = one_more(g, ("complaint_labor"@, "劳动争议起诉状"@, "起诉状"@, true));
    let g = one_more(g, ("complaint_traffic"@, "机动车交通事故起诉状"@, "起诉状"@, true));
    let g = one_more(g, ("complaint_financial_loan"@, "金融借款起诉状"@, "起诉状"@, false));
    let g = one_more(g, ("complaint_credit_card"@, "银行信用卡起诉状"@, "起诉状"@, false));
    marks_from_8();
    let g = one_more(g, ("complaint_finance_lease"@, "融资租赁合同起诉状"@, "起诉状"@, false));
    let g = one_more(g, ("complaint_guarantee_insurance"@, "保证保险合同起诉状"@, "起诉状"@, false));
    let g = one_more(g, ("complaint_securities_misstatement"@, "证券虚假陈述责任起诉状"@, "起诉状"@, false));
    let g = one_more(g, ("complaint_house_sale"@, "房屋买卖合同起诉状"@, "起诉状"@, false));
    let g = one_more(g, ("complaint_house_lease"@, "房屋租赁合同起诉状"@, "起诉状"@, false));
    let g = one_more(g, ("complaint_property_loss_insurance"@, "财产损失保险合同起诉状"@, "起诉状"@, false));
    let g = one_more(g, ("complaint_construction"@, "建设工程施工合同起诉状"@, "起诉状"@, false));
    let g = one_more(g, ("complaint_liability_insurance"@, "责任保险合同起诉状"@, "起诉状"@, false));
    marks_from_16();
    let g = one_more(g, ("complaint_personal_insurance"@, "人身保险合同起诉状"@, "起诉状"@, false));
    let g = one_more(g, ("complaint_technology"@, "技术合同纠纷起诉状"@, "起诉状"@, false));
    let g = one_more(g, ("application_enforcement"@, "强制执行申请书"@, "申请书"@, false));
    let g = one_more(g, ("application_lift_travel_restriction"@, "暂时解除乘坐飞机、高铁限制措施申请书"@, "申请书"@, false));
    let g = one_more(g, ("application_distribution"@, "参与分配申请书"@, "申请书"@, false));
    let g = one_more(g, ("application_enforcement_guarantee"@, "执行担保申请书"@, "申请书"@, false));
    let g = one_more(g, ("application_enforcement_objection"@, "执行异议申请书"@, "申请书"@, false));
    let g = one_more(g, ("application_enforcement_reconsideration"@, "执行复议申请书"@, "申请书"@, false));
    marks_from_24();
    let g = one_more(g, ("application_enforcement_supervision"@, "执行监督申请书"@, "申请书"@, false));
    let g = one_more(g, ("application_preemptive_right"@, "确认优先购买权申请书"@, "申请书"@, false));
    let g = one_more(g, ("application_non_enforcement"@, "不予执行申请书"@, "申请书"@, false));
    let g = one_more(g, ("defense_private_lending"@, "民间借贷答辩状"@, "答辩状"@, true));
    let g = one_more(g, ("defense_divorce"@, "离婚纠纷答辩状"@, "答辩状"@, true));
    let g = one_more(g, ("defense_sales"@, "买卖合同答辩状"@, "答辩状"@, true));
    let g = one_more(g, ("defense_property_service"@, "物业服务答辩状"@, "答辩状"@, true));
    let g = one_more(g, ("defense_labor"@, "劳动争议答辩状"@, "答辩状"@, true));
    marks_from_32();
    let g = one_more(g, ("defense_traffic"@, "机动车交通事故答辩状"@, "答辩状"@, true));
    let g = one_more(g, ("defense_financial_loan"@, "金融借款答辩状"@, "答辩状"@, false));
    let g = one_more(g, ("defense_credit_card"@, "银行信用卡答辩状"@, "答辩状"@, false));
    let g = one_more(g, ("defense_finance_lease"@, "融资租赁合同答辩状"@, "答辩状"@, false));
    let g = one_more(g, ("defense_guarantee_insurance"@, "保证保险合同答辩状"@, "答辩状"@, false));
    let g = one_more(g, ("defense_securities_misstatement"@, "证券虚假陈述责任答辩状"@, "答辩状"@, false));
    let g = one_more(g, ("defense_house_sale"@, "房屋买卖合同纠纷答辩状"@, "答辩状"@, false));
    let g = one_more(g, ("defense_house_lease"@, "房屋租赁合同纠纷答辩状"@, "答辩状"@, false));
    marks_from_40();
    let g = one_more(g, ("defense_property_loss_insurance"@, "财产损失保险合同纠纷民事答辩状"@, "答辩状"@, false));
    let g = one_more(g, ("defense_construction"@, "建设工程施工合同纠纷答辩状"@, "答辩状"@, false));
    let g = one_more(g, ("defense_liability_insurance"@, "责任保险合同纠纷民事答辩状"@, "答辩状"@, false));
    let g = one_more(g, ("defense_personal_insurance"@, "人身保险合同纠纷民事答辩状"@, "答辩状"@, false));
    let g = one_more(g, ("defense_technology"@, "技术合同纠纷答辩状"@, "答辩状"@, false));
    let g = one_more(g, ("defense_administrative"@, "行政答辩状"@, "答辩状"@, false));
    let g = one_more(g, ("statement_trademark_revocation"@, "商标撤销复审行政纠纷第三人意见陈述书"@, "陈述书"@, false));
    let g = one_more(g, ("statement_trademark_invalidity"@, "商标无效行政纠纷第三人意见陈述书"@, "陈述书"@, false));
    marks_from_48();
    let g = one_more(g, ("statement_patent_invalidity"@, "专利无效行政纠纷第三人意见陈述书"@, "陈述书"@, false));
    let g = one_more(g, ("mediation_application_private_lending"@, "民间借贷纠纷调解申请书"@, "调解申请书"@, false));
    let g = one_more(g, ("mediation_application_divorce"@, "离婚纠纷调解申请书"@, "调解申请书"@, false));
    let g = one_more(g, ("mediation_application_labor"@, "劳动纠纷调解申请书"@, "调解申请书"@, false));
    let g = one_more(g, ("mediation_application_traffic"@, "机动车交通事故责任纠纷调解申请书"@, "调解申请书"@, false));
    let g = one_more(g, ("mediation_defense_private_lending"@, "民间借贷纠纷调解答辩意见书"@, "调解答辩意见书"@, false));
    let g = one_more(g, ("mediation_defense_divorce"@, "离婚纠纷调解答辩意见书"@, "调解答辩意见书"@, false));
    let g = one_more(g, ("mediation_defense_labor"@, "劳动纠纷调解答辩意见书"@, "调解答辩意见书"@, false));
    marks_from_56();
    let g = one_more(g, ("mediation_defense_traffic"@, "机动车交通事故责任纠纷调解答辩意见书"@, "调解答辩意见书"@, false));
    let g = one_more(g, ("other_evidence_list"@, "证据清单"@, "其他"@, false));
    let g = one_more(g, ("other_arbitration_application"@, "仲裁申请书"@, "其他"@, false));
    let g = one_more(g, ("other_power_of_attorney_personal"@, "授权委托书（个人）"@, "其他"@, false));
    let g = one_more(g, ("other_administrative_reconsideration_personal"@, "行政复议申请书（个人）"@, "其他"@, false));
    let g = one_more(g, ("other_administrative_reconsideration_entity"@, "行政复议申请书（单位）"@, "其他"@, false));
    assert(g == rows()) by {
        reveal(rows);
    }
}

/// The first row with an id.
pub open spec fn row_with_id(rows: Seq<Row>, id: Seq<char>, k: int) -> Option<Row>
    decreases rows.len() - k,
{
    if k < 0 || k >= rows.len() {
        None
    } else if rows[k].0 == id {
        Some(rows[k])
    } else {
        row_with_id(rows, id, k + 1)
    }
}

/// The kind of document with an id.
pub fn find_template(id: &str) -> (r: Result<ElementDocumentType, String>)
    ensures
        match row_with_id(rows(), id@, 0) {
            Some(row) => r matches Ok(t) && t@ == definition_of(row),
            None => r matches Err(e) && e@ == "未知文书类型: "@ + id@,
        },
{
    let mut types = catalog();
    let ghost all = types_of(rows());
    let n: usize = types.len();
    let mut k: usize = 0;
    while k < n
        invariant
            k <= n,
            n == types@.len(),
            types_model(types@) == all,
            all == types_of(rows()),
            types_model(types@).len() == n,
            row_with_id(rows(), id@, 0) == row_with_id(rows(), id@, k as int),
        decreases n - k,
    {
        assert(all.len() == rows().len());
        assert(all[k as int] == definition_of(rows()[k as int]));
        assert(types@[k as int]@ == types_model(types@)[k as int]);
        if same_text(types[k].id.as_str(), id) {
            let found = types.remove(k);
            return Ok(found);
        }
        k = k + 1;
    }
    let mut e = String::from_str("未知文书类型: ");
    e.append(id);
    Err(e)
}

/// All kinds of documents.
pub fn list_element_document_types() -> (r: Vec<ElementDocumentType>)
    ensures
        types_model(r@) == types_of(rows()),
{
    catalog()
}

/// Every kind of document is found by its own id, and nothing is found by another
/// text.
pub proof fn kinds_are_found_by_their_ids(id: Seq<char>, i: int)
    ensures
        0 <= i < rows().len() ==> row_with_id(rows(), rows()[i].0, 0) == Some(rows()[i]),
        (forall|k: int| 0 <= k < rows().len() ==> (#[trigger] rows()[k]).0 != id) ==> row_with_id(
            rows(),
            id,
            0,
        ) is None,
{
    if 0 <= i < rows().len() {
        assert forall|k: int| 0 <= k < i implies (#[trigger] rows()[k]).0 != rows()[i].0 by {
            ids_are_distinct(k, i);
        }
        lemma_row_with_id(rows(), rows()[i].0, 0, i);
    }
    if forall|k: int| 0 <= k < rows().len() ==> (#[trigger] rows()[k]).0 != id {
        lemma_no_row(rows(), id, 0);
    }
}

proof fn lemma_row_with_id(r: Seq<Row>, id: Seq<char>, k: int, i: int)
    requires
        0 <= k <= i < r.len(),
        r[i].0 == id,
        forall|j: int| k <= j < i ==> (#[trigger] r[j]).0 != id,
    ensures
        row_with_id(r, id, k) == Some(r[i]),
    decreases i - k,
{
    if k < i {
        lemma_row_with_id(r, id, k + 1, i);
    }
}

proof fn lemma_no_row(r: Seq<Row>, id: Seq<char>, k: int)
    requires
        0 <= k <= r.len(),
        forall|j: int| k <= j < r.len() ==> (#[trigger] r[j]).0 != id,
    ensures
        row_with_id(r, id, k) is None,
    decreases r.len() - k,
{
    if k < r.len() {
        lemma_no_row(r, id, k + 1);
    }
}

/// Further elements take no element away and stand before the last four, which stay
/// at the end.
pub proof fn further_elements_stand_before_the_end(
    fields: Seq<FieldModel>,
    extra: Seq<FieldModel>,
    i: int,
)
    ensures
        ({
            let all = with_refined(fields, extra);
            let n = fields.len();
            &&& all.len() == n + extra.len()
            &&& 0 <= i < n - 4 ==> all[i] == fields[i]
            &&& 0 <= i < 4 && n >= 4 ==> all[all.len() - 4 + i] == fields[n - 4 + i]
            &&& 0 <= i < extra.len() && n >= 4 ==> all[n - 4 + i] == extra[i]
            &&& extra.len() == 0 ==> all == fields
        }),
{
    let k = if fields.len() >= 4 {
        fields.len() - 4
    } else {
        0
    };
    if extra.len() == 0 {
        assert(with_refined(fields, extra) =~= fields);
    }
}

/// A kind carries its id, its name and its category, and says whether it was worked
/// out in detail. Only such a kind has the further elements of its cause of action,
/// and a document of a special name has its own elements in place of those of its
/// category.
pub proof fn kinds_are_described_by_their_rows(row: Row)
    ensures
        definition_of(row).id == row.0,
        definition_of(row).name == row.1,
        definition_of(row).category == row.2,
        row.3 ==> definition_of(row).quality_level == "refined"@,
        !row.3 ==> definition_of(row).quality_level == "review_required"@,
        !row.3 && special_of(row.1) is None ==> definition_of(row).fields == common_of(row.2),
        !row.3 && special_of(row.1) is Some ==> definition_of(row).fields == special_of(row.1)->0,
        row.3 && special_of(row.1) is None ==> definition_of(row).fields.len() == common_of(
            row.2,
        ).len() + refined_of(row.1).len(),
        row.3 && special_of(row.1) is Some ==> definition_of(row).fields.len() == special_of(
            row.1,
        )->0.len() + refined_of(row.1).len(),
{
}

} // verus!
